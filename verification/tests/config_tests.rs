use auth2api::config::{apply_overrides, apply_settings, choose_config_dir, Config, ServeArgs, DEFAULT_MODEL};

#[test]
fn cli_flags_win_over_the_config_file() {
    let config = Config {
        port: 1111,
        default_model: "from-file".into(),
        ..Default::default()
    };
    let merged = apply_overrides(
        config,
        &ServeArgs {
            host: None,
            port: Some(2222),
            proxy: None,
            model: None,
        },
    );
    assert_eq!(merged.port, 2222);
    // Untouched flags must not clobber the file's values.
    assert_eq!(merged.default_model, "from-file");
}

#[test]
fn an_unusable_model_falls_back_instead_of_failing() {
    let config = Config::default();
    assert_eq!(config.resolve_model(Some("gpt-4o")), DEFAULT_MODEL);
    assert_eq!(config.resolve_model(None), DEFAULT_MODEL);
    assert_eq!(config.resolve_model(Some("")), DEFAULT_MODEL);
}

#[test]
fn a_supported_model_is_passed_through() {
    let config = Config::default();
    assert_eq!(config.resolve_model(Some("gpt-5.6-sol")), "gpt-5.6-sol");
}

#[test]
fn aliases_are_applied_before_the_support_check() {
    let mut config = Config::default();
    config.insert_alias("gpt-4o", "gpt-5.6-terra");
    assert_eq!(config.resolve_model(Some("gpt-4o")), "gpt-5.6-terra");
}

#[test]
fn an_alias_to_an_unusable_model_still_falls_back() {
    let mut config = Config::default();
    config.insert_alias("fast", "gpt-4o-mini");
    assert_eq!(config.resolve_model(Some("fast")), DEFAULT_MODEL);
}

#[test]
fn requested_models_are_trimmed_before_lookup() {
    let config = Config::default();
    assert_eq!(config.resolve_model(Some("  gpt-5.6-terra \n")), "gpt-5.6-terra");
    assert_eq!(config.resolve_model(Some("   ")), DEFAULT_MODEL);
}

#[test]
fn a_later_alias_for_the_same_name_replaces_the_earlier() {
    let mut config = Config::default();
    config.insert_alias("fast", "gpt-5.6-sol");
    config.insert_alias("fast", "gpt-5.6-terra");
    assert_eq!(config.model_aliases.len(), 1);
    assert_eq!(config.resolve_model(Some("fast")), "gpt-5.6-terra");
}

#[test]
fn every_served_model_is_listed_or_the_default() {
    let mut config = Config::default();
    config.insert_alias("a", "gpt-5.6-sol");
    config.insert_alias("b", "nope");
    for asked in [None, Some("a"), Some("b"), Some("gpt-5.6-luna"), Some("x"), Some("")] {
        let served = config.resolve_model(asked);
        assert!(config.models.contains(&served) || served == config.default_model);
    }
}

#[test]
fn the_defaults_bind_loopback() {
    let config = Config::default();
    assert_eq!(config.host, "127.0.0.1");
    assert_eq!(config.port, 8787);
    assert_eq!(config.models, vec!["gpt-5.6-sol", "gpt-5.6-terra", "gpt-5.6-luna"]);
    assert_eq!(config.default_instructions, "You are a helpful assistant.");
}

#[test]
fn omitted_settings_are_left_as_written() {
    let config = Config {
        proxy: "socks5://127.0.0.1:1080".into(),
        ..Default::default()
    };
    let saved = apply_settings(config, Some(9000), None, None);
    assert_eq!(saved.port, 9000);
    assert_eq!(saved.proxy, "socks5://127.0.0.1:1080");
    assert_eq!(saved.default_model, DEFAULT_MODEL);
    let saved = apply_settings(saved, None, Some("gpt-5.6-sol".into()), Some(String::new()));
    assert_eq!(saved.port, 9000);
    assert_eq!(saved.default_model, "gpt-5.6-sol");
    assert_eq!(saved.proxy, "");
}

#[test]
fn the_home_variable_wins_unless_blank() {
    assert_eq!(choose_config_dir(Some("/tmp/a2a"), Some("/home/u/.config/auth2api")).unwrap(), "/tmp/a2a");
    assert_eq!(choose_config_dir(Some("  "), Some("/home/u/.config/auth2api")).unwrap(), "/home/u/.config/auth2api");
    assert_eq!(choose_config_dir(None, Some("/c")).unwrap(), "/c");
    assert_eq!(
        choose_config_dir(Some(""), None).unwrap_err(),
        "cannot determine a config directory on this platform"
    );
}
