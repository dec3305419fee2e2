use alias_manager::alias::Alias;
use alias_manager::app_settings::{AppSettings, AppSettingsManager};
use alias_manager::error::AppError;
use alias_manager::shell_config::ShellConfigManager;
use alias_manager::shell_type::ShellType;
use alias_manager::template::{Template, TemplateCategory};

// --- errors ---

#[test]
fn test_detail_is_none_for_unit_variants() {
    assert!(AppError::RateLimited.detail().is_none());
    assert!(AppError::ReleaseNotFound.detail().is_none());
}

#[test]
fn test_error_codes_are_stable() {
    assert_eq!(AppError::AliasExists("x".into()).code(), "alias_exists");
    assert_eq!(AppError::AliasNotFound("x".into()).code(), "alias_not_found");
    assert_eq!(AppError::InvalidAliasName("x".into()).code(), "invalid_alias_name");
    assert_eq!(AppError::RateLimited.code(), "rate_limited");
    assert_eq!(AppError::ReleaseNotFound.code(), "release_not_found");
}

#[test]
fn error_detail_carries_context() {
    assert_eq!(AppError::AliasConflict("gs".into()).detail(), Some("gs".to_string()));
    assert_eq!(AppError::ConfigNotFound("/x".into()).detail(), Some("/x".to_string()));
    let io = AppError::IoError(std::io::Error::new(std::io::ErrorKind::Other, "disk"));
    assert_eq!(io.code(), "io_error");
    assert_eq!(io.detail(), Some("disk".to_string()));
}

#[test]
fn error_messages_match_their_kind() {
    assert_eq!(AppError::AliasConflict("gs".into()).message(), "Alias \"gs\" already exists");
    assert_eq!(AppError::ParseError("bad".into()).message(), "Parse error: bad");
    assert_eq!(AppError::NetworkError("down".into()).message(), "Network error: down");
    assert_eq!(
        AppError::RateLimited.message(),
        "GitHub API rate limited, please try again later"
    );
    let io = AppError::IoError(std::io::Error::new(std::io::ErrorKind::Other, "disk"));
    assert_eq!(io.message(), "I/O error: disk");
}

// --- aliases ---

#[test]
fn test_new_alias() {
    let alias = Alias::new("gs".to_string(), "git status".to_string());
    assert_eq!(alias.name, "gs");
    assert_eq!(alias.command, "git status");
    assert!(alias.tags.is_empty());
}

#[test]
fn test_with_tags() {
    let alias = Alias::with_tags("gs".to_string(), "git status".to_string(), vec!["git".to_string()]);
    assert_eq!(alias.tags, vec!["git"]);
}

#[test]
fn test_validate_name_valid() {
    assert!(Alias::validate_name("gs").is_ok());
    assert!(Alias::validate_name("my_alias").is_ok());
    assert!(Alias::validate_name("my-alias").is_ok());
    assert!(Alias::validate_name("alias123").is_ok());
    assert!(Alias::validate_name("_private").is_ok());
    assert!(Alias::validate_name("a").is_ok());
}

#[test]
fn test_validate_name_empty() {
    assert!(Alias::validate_name("").is_err());
}

#[test]
fn test_validate_name_starts_with_hyphen() {
    assert!(Alias::validate_name("-alias").is_err());
}

#[test]
fn test_validate_name_contains_spaces() {
    assert!(Alias::validate_name("my alias").is_err());
}

#[test]
fn test_validate_name_contains_special_chars() {
    assert!(Alias::validate_name("alias!").is_err());
    assert!(Alias::validate_name("alias@name").is_err());
    assert!(Alias::validate_name("alias.name").is_err());
}

#[test]
fn test_validate_name_starts_with_underscore() {
    assert!(Alias::validate_name("_alias").is_ok());
}

#[test]
fn test_validate_name_only_numbers() {
    assert!(Alias::validate_name("123").is_ok());
}

#[test]
fn validate_name_messages() {
    assert_eq!(Alias::validate_name(""), Err("别名名称不能为空".to_string()));
    assert_eq!(Alias::validate_name("-x"), Err("别名名称不能以连字符开头".to_string()));
    assert_eq!(
        Alias::validate_name("a b"),
        Err("别名名称只能包含字母数字、连字符和下划线".to_string())
    );
    // letters of other scripts count as alphanumeric
    assert!(Alias::validate_name("别名").is_ok());
}

#[test]
fn test_alias_equality() {
    let a1 = Alias::new("gs".to_string(), "git status".to_string());
    let a2 = Alias::new("gs".to_string(), "git status".to_string());
    assert_eq!(a1, a2);
}

#[test]
fn test_alias_inequality() {
    let a1 = Alias::new("gs".to_string(), "git status".to_string());
    let a2 = Alias::new("gs".to_string(), "git stash".to_string());
    assert_ne!(a1, a2);
}

#[test]
fn alias_duplicate_is_equal() {
    let a = Alias::with_tags("gs".to_string(), "git status".to_string(), vec!["git".to_string()]);
    assert_eq!(a.duplicate(), a);
}

// --- shells ---

#[test]
fn test_config_path_bash() {
    let path = ShellType::Bash.config_path();
    assert!(path.ends_with(".bashrc"));
}

#[test]
fn test_config_path_zsh() {
    let path = ShellType::Zsh.config_path();
    assert!(path.ends_with(".zshrc"));
}

#[test]
fn test_config_path_fish() {
    let path = ShellType::Fish.config_path();
    assert!(path.ends_with("config.fish"));
    assert!(path.contains("fish"));
}

#[test]
fn config_path_in_home() {
    assert_eq!(ShellType::Bash.config_path_in("/home/u"), "/home/u/.bashrc");
    assert_eq!(ShellType::Zsh.config_path_in("/home/u/"), "/home/u/.zshrc");
    assert_eq!(ShellType::Fish.config_path_in("/home/u"), "/home/u/.config/fish/config.fish");
}

#[test]
fn shell_from_path_uses_last_component() {
    assert_eq!(ShellType::from_shell_path(Some("/bin/zsh")), ShellType::Zsh);
    assert_eq!(ShellType::from_shell_path(Some("/bin/bash")), ShellType::Bash);
    assert_eq!(ShellType::from_shell_path(Some("/usr/local/bin/fish")), ShellType::Fish);
    assert_eq!(ShellType::from_shell_path(Some("/bin/csh")), ShellType::Bash);
    assert_eq!(ShellType::from_shell_path(None), ShellType::Bash);
}

#[test]
fn test_from_str_bash() {
    assert_eq!("bash".parse::<ShellType>(), Ok(ShellType::Bash));
}

#[test]
fn test_from_str_zsh() {
    assert_eq!("zsh".parse::<ShellType>(), Ok(ShellType::Zsh));
}

#[test]
fn test_from_str_fish() {
    assert_eq!("fish".parse::<ShellType>(), Ok(ShellType::Fish));
}

#[test]
fn test_from_str_case_insensitive() {
    assert_eq!("Bash".parse::<ShellType>(), Ok(ShellType::Bash));
    assert_eq!("ZSH".parse::<ShellType>(), Ok(ShellType::Zsh));
    assert_eq!("Fish".parse::<ShellType>(), Ok(ShellType::Fish));
}

#[test]
fn test_from_str_unknown_returns_error() {
    let result = "unknown_shell".parse::<ShellType>();
    assert!(result.is_err());
    assert_eq!(result, Err("未知 Shell 类型: unknown_shell".to_string()));
}

#[test]
fn test_display() {
    assert_eq!(ShellType::Bash.display(), "bash");
    assert_eq!(ShellType::Zsh.display(), "zsh");
    assert_eq!(ShellType::Fish.display(), "fish");
}

#[test]
fn test_label() {
    assert_eq!(ShellType::Bash.label(), "Bash");
    assert_eq!(ShellType::Zsh.label(), "Zsh");
    assert_eq!(ShellType::Fish.label(), "Fish");
}

#[test]
fn test_all() {
    let all = ShellType::all();
    assert_eq!(all.len(), 3);
    assert!(all.contains(&ShellType::Bash));
    assert!(all.contains(&ShellType::Zsh));
    assert!(all.contains(&ShellType::Fish));
}

#[test]
fn test_get_config_path() {
    let bash_path = ShellConfigManager::get_config_path(&ShellType::Bash);
    assert!(bash_path.ends_with(".bashrc"));
    let zsh_path = ShellConfigManager::get_config_path(&ShellType::Zsh);
    assert!(zsh_path.ends_with(".zshrc"));
}

// --- settings ---

#[test]
fn test_default_settings() {
    let settings = AppSettings::default_for(ShellType::Bash);
    assert_eq!(settings.auto_refresh, true);
    assert!(settings.custom_config_path.is_none());
}

#[test]
fn test_effective_config_path_custom() {
    let settings = AppSettings {
        shell_type: ShellType::Bash,
        custom_config_path: Some("/my/custom/bashrc".to_string()),
        auto_refresh: true,
    };
    assert_eq!(AppSettingsManager::effective_config_path(&settings), "/my/custom/bashrc");
}

#[test]
fn test_effective_config_path_default() {
    let settings = AppSettings {
        shell_type: ShellType::Bash,
        custom_config_path: None,
        auto_refresh: true,
    };
    let path = AppSettingsManager::effective_config_path(&settings);
    assert!(path.ends_with(".bashrc"));
}

#[test]
fn effective_config_path_in_home() {
    let settings = AppSettings::default_for(ShellType::Zsh);
    assert_eq!(AppSettingsManager::effective_config_path_in(&settings, "/h"), "/h/.zshrc");
    assert_eq!(AppSettingsManager::settings_path("/data"), "/data/settings.json");
}

#[test]
fn apply_update_changes_fields() {
    let s = AppSettings::default_for(ShellType::Bash);
    let s = AppSettingsManager::apply_update(s, Some("ZSH"), Some("/x/rc".to_string()), Some(false))
        .unwrap();
    assert_eq!(s.shell_type, ShellType::Zsh);
    assert_eq!(s.custom_config_path, Some("/x/rc".to_string()));
    assert!(!s.auto_refresh);
    // an empty path clears the custom path, missing values keep the old ones
    let s = AppSettingsManager::apply_update(s, None, Some(String::new()), None).unwrap();
    assert_eq!(s.shell_type, ShellType::Zsh);
    assert!(s.custom_config_path.is_none());
    assert!(!s.auto_refresh);
}

#[test]
fn apply_update_rejects_unknown_shell() {
    let s = AppSettings::default_for(ShellType::Bash);
    match AppSettingsManager::apply_update(s, Some("tcsh"), None, None) {
        Err(AppError::ParseError(m)) => assert_eq!(m, "未知 Shell 类型: tcsh"),
        other => panic!("unexpected: {:?}", other),
    }
}

// --- templates ---

#[test]
fn template_category_texts() {
    assert_eq!(TemplateCategory::FileOps.label(), "文件操作");
    assert_eq!(TemplateCategory::FileOps.key(), "fileops");
    assert_eq!(TemplateCategory::Network.display(), "网络");
    assert_eq!(TemplateCategory::all().len(), 5);
}

#[test]
fn template_constructors() {
    let t = Template::new(
        "gs".to_string(),
        "git status".to_string(),
        "status".to_string(),
        TemplateCategory::Git,
    );
    assert!(t.tags.is_empty());
    let u = Template::with_tags(
        "gs".to_string(),
        "git status".to_string(),
        "status".to_string(),
        TemplateCategory::Git,
        vec!["git".to_string()],
    );
    assert_eq!(u.duplicate(), u);
    assert_eq!(u.category, TemplateCategory::Git);
}
