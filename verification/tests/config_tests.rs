use this_code::config::{
    config_file_path, own_bin_dir, real_code_override, resolve_db_path, Config,
};

#[test]
fn test_config_default_is_all_none() {
    let config = Config::default();
    assert!(config.code_path.is_none());
    assert!(config.db_path.is_none());
}

#[test]
fn resolve_db_path_prefers_configured_path() {
    let config = Config { code_path: None, db_path: Some("/tmp/x.db".to_string()) };
    assert_eq!(resolve_db_path(&config, Some("/home/user")), "/tmp/x.db");
}

#[test]
fn resolve_db_path_defaults_under_home() {
    let config = Config::default();
    assert_eq!(resolve_db_path(&config, Some("/home/user")), "/home/user/.this-code/sessions.db");
    assert_eq!(resolve_db_path(&config, Some("/home/user/")), "/home/user/.this-code/sessions.db");
}

#[test]
fn resolve_db_path_without_home_is_relative() {
    let config = Config::default();
    assert_eq!(resolve_db_path(&config, None), ".this-code/sessions.db");
}

#[test]
fn own_paths_under_home() {
    assert_eq!(own_bin_dir("/home/user"), "/home/user/.this-code/bin");
    assert_eq!(config_file_path("/home/user"), "/home/user/.this-code/config.toml");
}

#[test]
fn real_code_override_priority() {
    let config = Config { code_path: Some("/opt/code".to_string()), db_path: None };
    assert_eq!(real_code_override(Some("/env/code"), &config), Some("/env/code".to_string()));
    assert_eq!(real_code_override(None, &config), Some("/opt/code".to_string()));
    assert_eq!(real_code_override(None, &Config::default()), None);
}
