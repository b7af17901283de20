use timelapse::git_config::{
    detect_git_repo, ensure_gitignore_patterns, parse_git_config_user_section, parse_git_remotes, parse_git_user_config,
    user_config_paths,
};
use timelapse::system_config::{config_file_path, example_config, init_if_missing, load_plan, GcConfig, LoadPlan, SystemConfig};

#[test]
fn test_default_config() {
    let config = SystemConfig::default();

    assert_eq!(config.daemon.checkpoint_interval_secs, 5);
    assert!(config.daemon.auto_gc_enabled);
    assert_eq!(config.daemon.auto_gc_interval_secs, 3600);
    assert_eq!(config.daemon.auto_gc_checkpoint_threshold, 5000);

    assert_eq!(config.gc.retain_count, 2000);
    assert_eq!(config.gc.retain_hours, 24);
    assert!(config.gc.retain_pins);
}

#[test]
fn test_retention_policy_conversion() {
    let gc_config = GcConfig { retain_count: 1000, retain_hours: 12, retain_pins: false };

    let policy = gc_config.to_retention_policy();

    assert_eq!(policy.retain_dense_count, 1000);
    assert_eq!(policy.retain_dense_window_ms, 12 * 60 * 60 * 1000);
    assert!(!policy.retain_pins);
}

#[test]
fn test_parse_git_user_config() {
    assert!(parse_git_user_config(&vec![]).is_none());

    let config = r#"
[core]
    repositoryformatversion = 0

[user]
    name = John Doe
    email = john@example.com

[remote "origin"]
    url = https://github.com/user/repo.git
"#;
    let result = parse_git_user_config(&vec![config.to_string()]);
    assert_eq!(result, Some(("John Doe".to_string(), "john@example.com".to_string())));

    let config_no_email = r#"
[user]
    name = Jane Doe
"#;
    assert!(parse_git_user_config(&vec![config_no_email.to_string()]).is_none());

    let global_config = r#"
[user]
    name = Global User
    email = global@example.com
"#;
    let result = parse_git_user_config(&vec![global_config.to_string(), "[core]\n".to_string()]);
    assert_eq!(result, Some(("Global User".to_string(), "global@example.com".to_string())));

    let local_override = r#"
[user]
    name = Local Override
    email = local@example.com
"#;
    let result = parse_git_user_config(&vec![global_config.to_string(), local_override.to_string()]);
    assert_eq!(result, Some(("Local Override".to_string(), "local@example.com".to_string())));
}

#[test]
fn test_parse_git_remotes() {
    let config_no_remotes = r#"
[core]
    repositoryformatversion = 0
"#;
    assert!(parse_git_remotes(config_no_remotes).is_empty());

    let config_single_remote = r#"
[remote "origin"]
    url = https://github.com/user/repo.git
    fetch = +refs/heads/*:refs/remotes/origin/*
"#;
    let result = parse_git_remotes(config_single_remote);
    assert_eq!(result.len(), 1);
    assert_eq!(result[0].0, "origin");
    assert_eq!(result[0].1, "https://github.com/user/repo.git");

    let config_multiple_remotes = r#"
[remote "origin"]
    url = https://github.com/user/repo.git

[remote "upstream"]
    url = https://github.com/upstream/repo.git
"#;
    assert_eq!(parse_git_remotes(config_multiple_remotes).len(), 2);
}

#[test]
fn test_ensure_gitignore_patterns() {
    let content = ensure_gitignore_patterns("", &[".tl/", "*.log"]).unwrap();
    assert!(content.contains(".tl/"));
    assert!(content.contains("*.log"));
    assert!(content.contains("# Timelapse"));
    assert_eq!(content, "# Timelapse (added by tl init)\n.tl/\n*.log\n");

    assert_eq!(ensure_gitignore_patterns(&content, &[".tl/"]), None);

    let content3 = ensure_gitignore_patterns(&content, &["*.tmp"]).unwrap();
    assert!(content3.contains("*.tmp"));
    assert!(content3.contains(".tl/"));
    assert_eq!(ensure_gitignore_patterns(&content3, &["*.tmp", ".tl/"]), None);
}

#[test]
fn an_unfinished_last_line_is_ended_first() {
    assert_eq!(
        ensure_gitignore_patterns("target", &[".tl/"]).unwrap(),
        "target\n\n# Timelapse (added by tl init)\n.tl/\n"
    );
}

#[test]
fn quotes_around_values_are_dropped() {
    let (name, email) = parse_git_config_user_section("[user]\n name = \"Ann B\"\n email=ann@b\n[core]\nname = x\n");
    assert_eq!(name, Some("Ann B".to_string()));
    assert_eq!(email, Some("ann@b".to_string()));
}

#[test]
fn malformed_remote_headers_are_skipped() {
    assert!(parse_git_remotes("[remote \"]\n url = x\n").is_empty());
    assert_eq!(
        parse_git_remotes("[remote \"a\"]\nurl = x\n[branch \"m\"]\nurl = y\n"),
        vec![("a".to_string(), "x".to_string())]
    );
}

#[test]
fn configuration_files_are_read_from_global_to_local() {
    assert_eq!(
        user_config_paths(Some("/home/u"), "/repo"),
        vec!["/home/u/.config/git/config", "/home/u/.gitconfig", "/repo/.git/config"]
    );
    assert_eq!(user_config_paths(None, "/repo"), vec!["/repo/.git/config"]);
}

#[test]
fn a_missing_configuration_is_written_where_it_can_be() {
    assert_eq!(config_file_path(Some("/c/tl")), Some("/c/tl/config.toml".to_string()));
    assert_eq!(config_file_path(Some("/c/")), Some("/c/config.toml".to_string()));
    assert_eq!(config_file_path(None), None);
    assert!(matches!(load_plan(None, true, true), LoadPlan::Defaults));
    assert!(matches!(load_plan(Some("p".to_string()), false, false), LoadPlan::Defaults));
    assert!(!matches!(load_plan(Some("p".to_string()), true, false), LoadPlan::Defaults));
    assert_eq!(init_if_missing(&Some("p".to_string()), false), Some(SystemConfig::default()));
    assert_eq!(init_if_missing(&Some("p".to_string()), true), None);
    assert_eq!(init_if_missing(&None, false), None);
}

#[test]
fn the_example_has_a_heading() {
    let text = example_config("[daemon]\n");
    assert!(text.starts_with("# Timelapse System Configuration\n# Location: ~/.config/tl/config.toml\n#\n"));
    assert!(text.ends_with("# Project-specific settings are in .tl/config.toml\n\n[daemon]\n"));
}

#[test]
fn test_detect_git_repo() {
    assert!(!detect_git_repo(false, false), "Should not detect git in empty dir");
    assert!(detect_git_repo(true, true), "Should detect git directory");
    assert!(!detect_git_repo(true, false));
}
