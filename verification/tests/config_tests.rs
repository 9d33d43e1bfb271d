use tg_harvest::config::{
    default_batch_size, default_forward_delay_ms, has_toml_extension, ChannelConfig,
    FilterConfig, FilterMode, GlobalConfig,
};

fn task(source: &str, target: &str) -> ChannelConfig {
    ChannelConfig {
        source: source.to_string(),
        target: target.to_string(),
        limit: 0,
        filter: FilterConfig::default(),
    }
}

#[test]
fn global_defaults() {
    assert_eq!(default_forward_delay_ms(), 1500);
    assert_eq!(default_batch_size(), 100);
}

#[test]
fn numeric_identifiers() {
    let c = task("1234567890", "my_channel");
    assert!(c.is_source_id());
    assert!(!c.is_target_id());
    let d = task("-100123", "");
    assert!(!d.is_source_id());
    assert!(d.is_target_id());
}

#[test]
fn filter_mode_text_and_default() {
    assert_eq!(FilterMode::Any.to_string(), "any");
    assert_eq!(FilterMode::All.to_string(), "all");
    assert_eq!(FilterMode::default(), FilterMode::Any);
    let f = FilterConfig::default();
    assert_eq!(f.mode, FilterMode::Any);
    assert!(f.reactions.is_none());
    assert!(f.comments.is_none());
}

#[test]
fn task_file_names() {
    for name in ["a.toml", "b.c.toml", "x..toml", "news.toml"] {
        assert!(has_toml_extension(name), "{}", name);
    }
    for name in [".toml", "toml", "a.toml.bak", "a.TOML", "a.", "..", ".", "", "atoml"] {
        assert!(!has_toml_extension(name), "{}", name);
    }
}

#[test]
fn task_file_names_agree_with_path_extension() {
    for name in ["a.toml", ".toml", "a.b", "..toml", "x.toml.", "...", "c.toml"] {
        let by_path =
            std::path::Path::new(name).extension().and_then(|s| s.to_str()) == Some("toml");
        assert_eq!(has_toml_extension(name), by_path, "{}", name);
    }
}

fn sample_global() -> GlobalConfig {
    GlobalConfig {
        api_id: 12345678,
        api_hash: "hash".to_string(),
        forward_delay_ms: default_forward_delay_ms(),
        batch_size: default_batch_size(),
    }
}

#[test]
fn load_default_requires_the_file() {
    let e = GlobalConfig::load_default(None).unwrap_err();
    assert_eq!(e, "config.toml not found. Please create one with your API credentials.");
    let ok = GlobalConfig::load_default(Some(Ok(sample_global()))).unwrap();
    assert_eq!(ok.api_id, 12345678);
    assert_eq!(ok.batch_size, 100);
    let bad = GlobalConfig::load_default(Some(Err("parse error".to_string()))).unwrap_err();
    assert_eq!(bad, "parse error");
}
