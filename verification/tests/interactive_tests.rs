use tg_harvest::interactive::{
    channel_info, choice_labels, collect_channels, config_file_name, display_name,
    render_channel_config, validate_number, ChannelInfo, FilterSettings, PeerSummary,
};

fn channel(id: i64, title: &str, username: Option<&str>) -> PeerSummary {
    PeerSummary::Channel { id, title: title.to_string(), username: username.map(String::from) }
}

#[test]
fn channels_sorted_by_name_ignoring_case() {
    let peers = vec![
        channel(1, "beta", None),
        PeerSummary::User,
        channel(2, "Alpha", Some("alpha")),
        PeerSummary::Group { id: 3, title: None, username: None },
        channel(4, "alpha", None),
        PeerSummary::Group { id: 5, title: Some("Zeta".to_string()), username: Some("z".to_string()) },
    ];
    let list = collect_channels(peers);
    let names: Vec<&str> = list.iter().map(|c| c.name.as_str()).collect();
    assert_eq!(names, vec!["Alpha", "alpha", "beta", "Unknown Group", "Zeta"]);
    let ids: Vec<i64> = list.iter().map(|c| c.id).collect();
    assert_eq!(ids, vec![2, 4, 1, 3, 5]);
    assert!(list[0].is_channel);
    assert!(!list[4].is_channel);
    assert_eq!(list[4].username.as_deref(), Some("z"));
}

#[test]
fn lowercase_decides_the_order() {
    let list = collect_channels(vec![channel(1, "B", None), channel(2, "a", None)]);
    assert_eq!(list[0].name, "a");
    assert_eq!(list[1].name, "B");
}

#[test]
fn users_are_not_listed() {
    assert!(channel_info(PeerSummary::User).is_none());
    let g = channel_info(PeerSummary::Group { id: 9, title: None, username: None }).unwrap();
    assert_eq!(g.name, "Unknown Group");
    assert!(!g.is_channel);
}

#[test]
fn choice_list_labels() {
    let list = vec![
        ChannelInfo { id: 1, name: "News".to_string(), username: Some("news".to_string()), is_channel: true },
        ChannelInfo { id: 2, name: "Chat".to_string(), username: None, is_channel: false },
    ];
    let labels = choice_labels(&list).unwrap();
    assert_eq!(labels, vec!["[1] News (频道) @news".to_string(), "[2] Chat (群组) @无用户名".to_string()]);
    assert_eq!(choice_labels(&vec![]).unwrap_err(), "没有可用的频道或群组");
}

#[test]
fn filter_answers() {
    let f = FilterSettings::from_answers(0, "5", "x");
    assert_eq!(f.mode, "any");
    assert_eq!(f.min_reactions, 5);
    assert_eq!(f.min_comments, 0);
    let g = FilterSettings::from_answers(1, "-2", "10");
    assert_eq!(g.mode, "all");
    assert_eq!(g.min_reactions, -2);
    assert_eq!(g.min_comments, 10);
    assert!(validate_number("12").is_ok());
    assert_eq!(validate_number("twelve").unwrap_err(), "请输入有效数字");
    assert_eq!(validate_number("").unwrap_err(), "请输入有效数字");
}

#[test]
fn task_file_text() {
    let f = FilterSettings { mode: "all".to_string(), min_reactions: 5, min_comments: -1 };
    let text = render_channel_config("news", "digest", &f);
    let expected = "source = \"news\"\ntarget = \"digest\"\nlimit = 0\n\n[filter]\nmode = \"all\"\n\n[filter.reactions]\nspecific = [\"👍\", \"❤️\"]\nmin_specific_total = 5\n\n[filter.comments]\nmin = -1\n";
    assert_eq!(text, expected);
    assert_eq!(config_file_name("news"), "news.toml");
}

#[test]
fn shown_names() {
    assert_eq!(display_name(Some(channel(1, "Daily", None)), "123"), "Daily");
    assert_eq!(
        display_name(Some(PeerSummary::Group { id: 1, title: None, username: None }), "123"),
        "123"
    );
    assert_eq!(
        display_name(Some(PeerSummary::Group { id: 1, title: Some("G".to_string()), username: None }), "x"),
        "G"
    );
    assert_eq!(display_name(Some(PeerSummary::User), "someone"), "someone");
    assert_eq!(display_name(None, "someone"), "someone");
}

#[test]
fn equal_names_keep_their_order() {
    let list = collect_channels(vec![
        channel(7, "same", None),
        channel(1, "Other", None),
        channel(3, "Same", None),
        channel(5, "SAME", None),
    ]);
    let ids: Vec<i64> = list.iter().map(|c| c.id).collect();
    assert_eq!(ids, vec![1, 7, 3, 5]);
}
