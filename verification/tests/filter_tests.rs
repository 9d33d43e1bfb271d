use tg_harvest::config::{CommentFilterConfig, FilterConfig, FilterMode, ReactionFilterConfig};
use tg_harvest::filter::{
    normalize_emoji, reaction_emoji, AIFilter, ChannelFilter, CommentFilter, FilterRule,
    MessageCounters, MessageFilter, MessageInfo, ReactionCount, ReactionFilter, ReactionKind,
};

fn emoji(e: &str, count: i32) -> ReactionCount {
    ReactionCount { reaction: ReactionKind::Emoji(e.to_string()), count }
}

fn message(reactions: Option<Vec<ReactionCount>>, replies: Option<i32>) -> MessageInfo {
    MessageInfo {
        id: 1,
        grouped_id: None,
        has_text: true,
        has_media: false,
        counters: Some(MessageCounters { reactions, replies }),
        date: String::new(),
    }
}

fn service_message() -> MessageInfo {
    MessageInfo {
        id: 2,
        grouped_id: None,
        has_text: true,
        has_media: false,
        counters: None,
        date: String::new(),
    }
}

#[test]
fn variation_selectors_are_removed() {
    assert_eq!(normalize_emoji("\u{2764}\u{fe0f}"), "\u{2764}");
    assert_eq!(normalize_emoji("👍"), "👍");
    assert_eq!(normalize_emoji("a\u{fe0f}b\u{fe0f}\u{fe0f}"), "ab");
    let once = normalize_emoji("\u{2764}\u{fe0f}x");
    assert_eq!(normalize_emoji(&once), once);
}

#[test]
fn reaction_texts() {
    assert_eq!(reaction_emoji(&emoji("\u{2764}\u{fe0f}", 1)), "\u{2764}");
    let custom = ReactionCount { reaction: ReactionKind::CustomEmoji(5123), count: 1 };
    assert_eq!(reaction_emoji(&custom), "<custom:5123>");
    let negative = ReactionCount { reaction: ReactionKind::CustomEmoji(-9), count: 1 };
    assert_eq!(reaction_emoji(&negative), "<custom:-9>");
    assert_eq!(reaction_emoji(&ReactionCount { reaction: ReactionKind::Empty, count: 3 }), "");
    assert_eq!(reaction_emoji(&ReactionCount { reaction: ReactionKind::Paid, count: 3 }), "");
}

#[test]
fn reaction_filter_counts_listed_emoji() {
    let f = ReactionFilter { specific: vec!["👍".to_string(), "\u{2764}".to_string()], min_specific_total: 5 };
    let m = message(Some(vec![emoji("👍", 2), emoji("\u{2764}\u{fe0f}", 3), emoji("🔥", 100)]), None);
    assert!(f.accept(&m));
    let n = message(Some(vec![emoji("👍", 2), emoji("🔥", 100)]), None);
    assert!(!f.accept(&n));
}

#[test]
fn reaction_filter_counts_all_when_none_listed() {
    let f = ReactionFilter { specific: vec![], min_specific_total: 5 };
    assert!(f.accept(&message(Some(vec![emoji("🔥", 4), emoji("😂", 1)]), None)));
    assert!(!f.accept(&message(Some(vec![emoji("🔥", 4)]), None)));
}

#[test]
fn reaction_filter_rejects_without_data() {
    let f = ReactionFilter { specific: vec![], min_specific_total: 1 };
    assert!(!f.accept(&message(None, Some(10))));
    assert!(!f.accept(&service_message()));
    let open = ReactionFilter { specific: vec![], min_specific_total: 0 };
    assert!(open.accept(&service_message()));
    let listed_zero = ReactionFilter { specific: vec!["👍".to_string()], min_specific_total: 0 };
    assert!(!listed_zero.accept(&service_message()));
    assert!(listed_zero.accept(&message(Some(vec![]), None)));
}

#[test]
fn comment_filter() {
    let f = CommentFilter { min: 3 };
    assert!(f.accept(&message(None, Some(3))));
    assert!(!f.accept(&message(None, Some(2))));
    assert!(!f.accept(&message(None, None)));
    assert!(!f.accept(&service_message()));
    assert!(CommentFilter { min: 0 }.accept(&service_message()));
}

#[test]
fn placeholder_filter_accepts() {
    assert!(AIFilter.accept(&service_message()));
}

#[test]
fn channel_filter_from_settings() {
    let config = FilterConfig {
        mode: FilterMode::All,
        reactions: Some(ReactionFilterConfig {
            specific: vec!["\u{2764}\u{fe0f}".to_string()],
            min_specific_total: 0,
        }),
        comments: Some(CommentFilterConfig { min: 2 }),
    };
    let f = ChannelFilter::new(&config);
    assert_eq!(f.mode, FilterMode::All);
    assert_eq!(f.filters.len(), 2);
    match &f.filters[0] {
        FilterRule::Reaction(r) => {
            assert_eq!(r.specific, vec!["\u{2764}".to_string()]);
            assert_eq!(r.min_specific_total, 0);
        },
        _ => panic!("expected a reaction rule first"),
    }
    match &f.filters[1] {
        FilterRule::Comment(c) => assert_eq!(c.min, 2),
        _ => panic!("expected a comment rule second"),
    }
}

#[test]
fn channel_filter_skips_empty_settings() {
    let config = FilterConfig {
        mode: FilterMode::Any,
        reactions: Some(ReactionFilterConfig { specific: vec![], min_specific_total: 0 }),
        comments: Some(CommentFilterConfig { min: 0 }),
    };
    let f = ChannelFilter::new(&config);
    assert!(f.filters.is_empty());
    assert!(f.accept(&service_message()));
}

#[test]
fn channel_filter_modes() {
    let rules = vec![
        FilterRule::Reaction(ReactionFilter { specific: vec![], min_specific_total: 5 }),
        FilterRule::Comment(CommentFilter { min: 3 }),
    ];
    let any = ChannelFilter { mode: FilterMode::Any, filters: rules.clone() };
    let all = ChannelFilter { mode: FilterMode::All, filters: rules };
    let only_comments = message(Some(vec![emoji("👍", 1)]), Some(4));
    let both = message(Some(vec![emoji("👍", 6)]), Some(4));
    let neither = message(Some(vec![emoji("👍", 1)]), Some(0));
    assert!(any.accept(&only_comments));
    assert!(!all.accept(&only_comments));
    assert!(any.accept(&both));
    assert!(all.accept(&both));
    assert!(!any.accept(&neither));
    assert!(!all.accept(&neither));
}

#[test]
fn message_size_check() {
    assert!(message(Some(vec![emoji("👍", 1)]), None).fits());
    assert!(service_message().fits());
}
