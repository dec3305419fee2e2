use alias_manager::alias::Alias;
use alias_manager::error::AppError;
use alias_manager::shell_config::{BatchOutcome, ShellConfigManager};
use alias_manager::shell_type::ShellType;

fn al(name: &str, command: &str) -> Alias {
    Alias::new(name.to_string(), command.to_string())
}

#[test]
fn test_list_aliases_empty_file() {
    let aliases = ShellConfigManager::list_aliases("");
    assert!(aliases.is_empty());
}

#[test]
fn test_add_and_list_aliases() {
    let content = "# My shell config\n";
    let new = ShellConfigManager::add_alias(content, &al("gs", "git status")).unwrap();
    let aliases = ShellConfigManager::list_aliases(&new);
    assert_eq!(aliases.len(), 1);
    assert_eq!(aliases[0].name, "gs");
    assert_eq!(aliases[0].command, "git status");
}

#[test]
fn test_delete_alias() {
    let content = "alias gs='git status'\nalias ll='ls -la'\n";
    let new = ShellConfigManager::delete_alias(content, "gs").unwrap();
    let aliases = ShellConfigManager::list_aliases(&new);
    assert_eq!(aliases.len(), 1);
    assert_eq!(aliases[0].name, "ll");
}

#[test]
fn test_update_alias() {
    let content = "alias gs='git status'\n";
    let new =
        ShellConfigManager::update_alias(content, "gs", &al("gs", "git status --short")).unwrap();
    let aliases = ShellConfigManager::list_aliases(&new);
    assert_eq!(aliases[0].command, "git status --short");
}

#[test]
fn test_list_aliases_nonexistent_file() {
    // a missing file reads as empty text
    let aliases = ShellConfigManager::list_aliases("");
    assert!(aliases.is_empty());
}

#[test]
fn test_add_alias_duplicate_error() {
    let content = "alias gs='git status'\n";
    let result = ShellConfigManager::add_alias(content, &al("gs", "git status --short"));
    assert!(result.is_err());
}

#[test]
fn test_add_alias_invalid_name() {
    let result = ShellConfigManager::add_alias("", &al("invalid name", "echo hello"));
    assert!(result.is_err());
    match result {
        Err(AppError::InvalidAliasName(m)) => {
            assert_eq!(m, "别名名称只能包含字母数字、连字符和下划线")
        },
        _ => panic!("expected an invalid name"),
    }
}

#[test]
fn shell_config_test_delete_alias_not_found() {
    let content = "alias gs='git status'\n";
    let result = ShellConfigManager::delete_alias(content, "nonexistent");
    assert!(result.is_err());
}

#[test]
fn shell_config_test_update_alias_not_found() {
    let content = "alias gs='git status'\n";
    let result = ShellConfigManager::update_alias(content, "nonexistent", &al("new", "echo hello"));
    assert!(result.is_err());
}

#[test]
fn shell_config_test_update_alias_rename() {
    let content = "alias gs='git status'\n";
    let new = ShellConfigManager::update_alias(content, "gs", &al("gitstatus", "git status")).unwrap();
    let aliases = ShellConfigManager::list_aliases(&new);
    assert_eq!(aliases.len(), 1);
    assert_eq!(aliases[0].name, "gitstatus");
}

#[test]
fn test_full_crud_lifecycle() {
    let content = "# My config\n".to_string();
    let content = ShellConfigManager::add_alias(&content, &al("gs", "git status")).unwrap();
    let content = ShellConfigManager::add_alias(&content, &al("ll", "ls -la")).unwrap();
    let aliases = ShellConfigManager::list_aliases(&content);
    assert_eq!(aliases.len(), 2);

    let content =
        ShellConfigManager::update_alias(&content, "gs", &al("gs", "git status --short")).unwrap();
    let aliases = ShellConfigManager::list_aliases(&content);
    assert_eq!(
        aliases.iter().find(|a| a.name == "gs").unwrap().command,
        "git status --short"
    );

    let content = ShellConfigManager::delete_alias(&content, "ll").unwrap();
    let aliases = ShellConfigManager::list_aliases(&content);
    assert_eq!(aliases.len(), 1);
    assert_eq!(aliases[0].name, "gs");
    assert!(content.contains("# My config"));
}

#[test]
fn test_batch_add_single_write() {
    let aliases = vec![al("gs", "git status"), al("ll", "ls -la"), al("gp", "git push")];
    let (outcome, new) = ShellConfigManager::add_aliases_batch("# header\n", &aliases);
    assert_eq!(outcome.success_count, 3);
    assert_eq!(outcome.skipped_count, 0);
    assert!(outcome.errors.is_empty());
    let content = new.unwrap();
    assert!(content.contains("# header"));
    assert!(content.contains("alias gs='git status'"));
    assert!(content.contains("alias ll='ls -la'"));
    assert!(content.contains("alias gp='git push'"));
}

#[test]
fn test_batch_add_skips_existing_and_invalid() {
    let aliases = vec![al("gs", "git status -s"), al("bad name", "echo hi"), al("ll", "ls -la")];
    let (outcome, new) = ShellConfigManager::add_aliases_batch("alias gs='git status'\n", &aliases);
    assert_eq!(outcome.success_count, 1);
    assert_eq!(outcome.skipped_count, 1);
    assert_eq!(outcome.errors.len(), 1);
    let content = new.unwrap();
    assert!(content.contains("alias gs='git status'"));
    assert!(!content.contains("git status -s"));
    assert!(content.contains("alias ll='ls -la'"));
}

#[test]
fn test_batch_add_no_change_no_write() {
    let (outcome, new) =
        ShellConfigManager::add_aliases_batch("alias gs='git status'\n", &[al("gs", "other")]);
    assert_eq!(outcome.success_count, 0);
    assert_eq!(outcome.skipped_count, 1);
    assert!(new.is_none());
}

#[test]
fn test_batch_delete_single_write() {
    let content = "alias gs='git status'\nalias ll='ls -la'\nalias gp='git push'\n";
    let (outcome, new) = ShellConfigManager::delete_aliases_batch(
        content,
        &["gs".to_string(), "gp".to_string(), "missing".to_string()],
    );
    assert_eq!(outcome.success_count, 2);
    assert_eq!(outcome.errors.len(), 1);
    let aliases = ShellConfigManager::list_aliases(&new.unwrap());
    assert_eq!(aliases.len(), 1);
    assert_eq!(aliases[0].name, "ll");
}

#[test]
fn test_batch_update_single_write_in_place() {
    let content = "# header\nalias gs='git status'\nalias ll='ls -la'\n";
    let mut gs = al("gs", "git status --short");
    gs.tags = vec!["git".to_string()];
    let ll = al("ll", "ls -lah");
    let (outcome, new) = ShellConfigManager::update_aliases_batch(content, &[gs, ll]);
    assert_eq!(outcome.success_count, 2);
    assert!(outcome.errors.is_empty());
    let content = new.unwrap();
    assert!(content.contains("# header"));
    assert!(content.contains("alias gs='git status --short'"));
    assert!(content.contains("alias ll='ls -lah'"));
    assert!(content.find("alias gs").unwrap() < content.find("alias ll").unwrap());
    let aliases = ShellConfigManager::list_aliases(&content);
    let gs = aliases.iter().find(|a| a.name == "gs").unwrap();
    assert_eq!(gs.tags, vec!["git".to_string()]);
}

#[test]
fn test_batch_update_not_found_and_invalid() {
    let (outcome, new) = ShellConfigManager::update_aliases_batch(
        "alias gs='git status'\n",
        &[al("missing", "echo hi"), al("bad name", "echo hi")],
    );
    assert_eq!(outcome.success_count, 0);
    assert_eq!(outcome.errors.len(), 2);
    assert!(new.is_none());
}

#[test]
fn test_batch_update_no_change_no_write() {
    let (outcome, new) =
        ShellConfigManager::update_aliases_batch("alias gs='git status'\n", &[al("gs", "git status")]);
    assert_eq!(outcome.success_count, 1);
    assert!(outcome.errors.is_empty());
    assert!(new.is_none());
}

#[test]
fn batch_error_messages_name_the_entry() {
    let (outcome, _) = ShellConfigManager::update_aliases_batch(
        "alias gs='git status'\n",
        &[al("missing", "echo hi")],
    );
    assert_eq!(outcome.errors, vec!["missing: Alias not found: missing".to_string()]);
    let (outcome, _) =
        ShellConfigManager::delete_aliases_batch("", &["-x".to_string()]);
    assert_eq!(outcome.errors.len(), 1);
}

#[test]
fn batch_outcome_default_is_empty() {
    let o = BatchOutcome::default();
    assert_eq!(o.success_count, 0);
    assert_eq!(o.skipped_count, 0);
    assert!(o.errors.is_empty());
}

#[test]
fn source_command_per_shell() {
    let (p, args) = ShellConfigManager::source_command("/h/.zshrc", &ShellType::Zsh);
    assert_eq!(p, "zsh");
    assert_eq!(args, vec!["-i".to_string(), "-c".to_string(), "source '/h/.zshrc'".to_string()]);
    let (p, args) = ShellConfigManager::source_command("/h/.bashrc", &ShellType::Bash);
    assert_eq!(p, "bash");
    assert_eq!(args, vec!["-c".to_string(), "source '/h/.bashrc'".to_string()]);
    let (p, _) = ShellConfigManager::source_command("/h/c.fish", &ShellType::Fish);
    assert_eq!(p, "fish");
}

#[test]
fn added_alias_reads_back_with_tags() {
    let content = "# header\nalias a='1'\nexport X=1";
    let mut b = al("b", "echo 'q' | wc");
    b.tags = vec!["t1".to_string(), "t 2".to_string()];
    let new = ShellConfigManager::add_alias(content, &b).unwrap();
    let listed = ShellConfigManager::list_aliases(&new);
    assert_eq!(listed, vec![al("a", "1"), b]);
}

#[test]
fn adding_after_a_final_tags_comment_takes_its_tags() {
    // the law of reading back an added alias excludes this case
    let new = ShellConfigManager::add_alias("# @tags:x", &al("a", "1")).unwrap();
    let listed = ShellConfigManager::list_aliases(&new);
    assert_eq!(listed[0].tags, vec!["x".to_string()]);
}

#[test]
fn delete_keeps_the_others_in_order() {
    let content = "alias a='1'\n# note\n# @tags:t\nalias b='2'\nalias c=\"3\"\n";
    let new = ShellConfigManager::delete_alias(content, "a").unwrap();
    let listed = ShellConfigManager::list_aliases(&new);
    let mut b = al("b", "2");
    b.tags = vec!["t".to_string()];
    assert_eq!(listed, vec![b, al("c", "3")]);
    assert!(new.contains("# note"));
}

#[test]
fn update_in_place_and_rename_to_the_end() {
    let content = "alias a='1'\nalias b='2'\nalias c='3'\n";
    let new = ShellConfigManager::update_alias(content, "b", &al("b", "22")).unwrap();
    assert_eq!(ShellConfigManager::list_aliases(&new), vec![al("a", "1"), al("b", "22"), al("c", "3")]);
    let new = ShellConfigManager::update_alias(content, "b", &al("bb", "2")).unwrap();
    assert_eq!(ShellConfigManager::list_aliases(&new), vec![al("a", "1"), al("c", "3"), al("bb", "2")]);
    match ShellConfigManager::update_alias(content, "b", &al("c", "x")) {
        Err(AppError::AliasExists(n)) => assert_eq!(n, "c"),
        other => panic!("unexpected: {:?}", other),
    }
}

#[test]
fn batches_read_back_as_their_final_lists() {
    let content = "# @tags:g\nalias gs='git status'\nalias ll='ls -la'\n# end\n";
    let mut gs = al("gs", "git status");
    gs.tags = vec!["g".to_string()];
    let (_, new) = ShellConfigManager::add_aliases_batch(content, &[al("gp", "git push"), al("gs", "x")]);
    assert_eq!(
        ShellConfigManager::list_aliases(&new.unwrap()),
        vec![gs.duplicate(), al("ll", "ls -la"), al("gp", "git push")]
    );
    let (_, new) = ShellConfigManager::delete_aliases_batch(content, &["gs".to_string(), "zz".to_string()]);
    assert_eq!(ShellConfigManager::list_aliases(&new.unwrap()), vec![al("ll", "ls -la")]);
    let (_, new) = ShellConfigManager::update_aliases_batch(content, &[al("ll", "ls -lah")]);
    assert_eq!(ShellConfigManager::list_aliases(&new.unwrap()), vec![gs, al("ll", "ls -lah")]);
}

#[test]
fn batch_add_appends_to_the_text_as_it_is() {
    let content = "alias ll=\"x\"\n# tail";
    let (outcome, new) =
        ShellConfigManager::add_aliases_batch(content, &[al("gs", "git status"), al("ll", "y")]);
    assert_eq!(outcome.success_count, 1);
    assert_eq!(outcome.skipped_count, 1);
    assert_eq!(new.unwrap(), "alias ll=\"x\"\n# tail\nalias gs='git status'\n");
}
