use alias_manager::alias::Alias;
use alias_manager::alias_parser::{
    add_alias_to_content, delete_alias_from_content, format_alias_line, parse_alias_line,
    parse_aliases_from_content, parse_command_value, parse_tags_comment, rebuild_config_content,
    update_alias_in_content,
};
use alias_manager::error::AppError;

fn al(name: &str, command: &str) -> Alias {
    Alias::new(name.to_string(), command.to_string())
}

#[test]
fn test_parse_single_quoted() {
    let alias = parse_alias_line("alias gs='git status'").unwrap();
    assert_eq!(alias.name, "gs");
    assert_eq!(alias.command, "git status");
}

#[test]
fn test_parse_double_quoted() {
    let alias = parse_alias_line("alias ll=\"ls -la\"").unwrap();
    assert_eq!(alias.name, "ll");
    assert_eq!(alias.command, "ls -la");
}

#[test]
fn test_parse_unquoted() {
    let alias = parse_alias_line("alias cls=clear").unwrap();
    assert_eq!(alias.name, "cls");
    assert_eq!(alias.command, "clear");
}

#[test]
fn test_skip_comments() {
    assert!(parse_alias_line("# alias skip='echo skip'").is_none());
}

#[test]
fn test_skip_empty() {
    assert!(parse_alias_line("").is_none());
    assert!(parse_alias_line("   ").is_none());
}

#[test]
fn test_skip_non_alias() {
    assert!(parse_alias_line("export PATH=$HOME/bin:$PATH").is_none());
}

#[test]
fn test_format_alias() {
    let alias = al("gs", "git status");
    assert_eq!(format_alias_line(&alias), "alias gs='git status'");
}

#[test]
fn test_rebuild_preserves_non_alias_lines() {
    let content =
        "# My aliases\nalias ll='ls -la'\nexport PATH=$HOME/bin:$PATH\nalias gs='git status'\n";
    let aliases = vec![al("gs", "git status --short")];
    let result = rebuild_config_content(content, &aliases);
    assert!(result.contains("# My aliases"));
    assert!(result.contains("export PATH=$HOME/bin:$PATH"));
    assert!(result.contains("alias gs='git status --short'"));
    assert!(!result.contains("alias ll="));
}

#[test]
fn test_parse_command_with_pipe() {
    let alias = parse_alias_line("alias lc='ls | wc -l'").unwrap();
    assert_eq!(alias.name, "lc");
    assert_eq!(alias.command, "ls | wc -l");
}

#[test]
fn test_parse_command_with_semicolon() {
    let alias = parse_alias_line("alias rebuild='cargo clean; cargo build'").unwrap();
    assert_eq!(alias.name, "rebuild");
    assert_eq!(alias.command, "cargo clean; cargo build");
}

#[test]
fn test_parse_command_with_dollar_variable() {
    let alias = parse_alias_line("alias home='echo $HOME'").unwrap();
    assert_eq!(alias.name, "home");
    assert_eq!(alias.command, "echo $HOME");
}

#[test]
fn test_parse_command_with_double_quotes_inside_single() {
    let alias = parse_alias_line("alias greet='echo \"hello\"'").unwrap();
    assert_eq!(alias.name, "greet");
    assert_eq!(alias.command, "echo \"hello\"");
}

#[test]
fn test_parse_command_with_backslash() {
    let alias = parse_alias_line(r"alias escape='echo \n'").unwrap();
    assert_eq!(alias.name, "escape");
    assert_eq!(alias.command, r"echo \n");
}

#[test]
fn test_parse_unquoted_with_spaces() {
    let alias = parse_alias_line("alias cmd=simple_command").unwrap();
    assert_eq!(alias.name, "cmd");
    assert_eq!(alias.command, "simple_command");
}

#[test]
fn test_parse_with_leading_whitespace() {
    let alias = parse_alias_line("  alias gs='git status'").unwrap();
    assert_eq!(alias.name, "gs");
    assert_eq!(alias.command, "git status");
}

#[test]
fn test_parse_with_trailing_whitespace() {
    let alias = parse_alias_line("alias gs='git status'  ").unwrap();
    assert_eq!(alias.name, "gs");
    assert_eq!(alias.command, "git status");
}

#[test]
fn test_parse_alias_no_equals() {
    assert!(parse_alias_line("alias gs").is_none());
}

#[test]
fn test_parse_alias_empty_name() {
    assert!(parse_alias_line("alias ='git status'").is_none());
}

#[test]
fn test_parse_alias_empty_value() {
    assert!(parse_alias_line("alias gs=").is_none());
}

#[test]
fn test_parse_alias_empty_single_quotes() {
    let alias = parse_alias_line("alias gs=''");
    assert!(alias.is_some());
    assert_eq!(alias.unwrap().command, "");
}

#[test]
fn test_parse_unclosed_single_quote() {
    assert!(parse_alias_line("alias gs='git status").is_none());
}

#[test]
fn test_parse_unclosed_double_quote() {
    assert!(parse_alias_line("alias gs=\"git status").is_none());
}

#[test]
fn test_parse_inline_comment_after_alias() {
    let alias = parse_alias_line("alias gs='git status' # shortcut").unwrap();
    assert_eq!(alias.name, "gs");
    assert_eq!(alias.command, "git status");
}

#[test]
fn test_parse_only_word_alias() {
    assert!(parse_alias_line("alias").is_none());
}

#[test]
fn test_parse_alias_with_hyphen_name() {
    let alias = parse_alias_line("alias g-co='git checkout'").unwrap();
    assert_eq!(alias.name, "g-co");
    assert_eq!(alias.command, "git checkout");
}

#[test]
fn test_parse_alias_with_underscore_name() {
    let alias = parse_alias_line("alias _gs='git stash'").unwrap();
    assert_eq!(alias.name, "_gs");
    assert_eq!(alias.command, "git stash");
}

#[test]
fn test_parse_line_starting_with_alias_without_space() {
    assert!(parse_alias_line("aliassomething='value'").is_none());
}

#[test]
fn test_parse_multiple_aliases_from_content() {
    let content = "alias gs='git status'\nalias ll='ls -la'\nalias gp='git push'\n";
    let aliases = parse_aliases_from_content(content);
    assert_eq!(aliases.len(), 3);
    assert_eq!(aliases[0].name, "gs");
    assert_eq!(aliases[1].name, "ll");
    assert_eq!(aliases[2].name, "gp");
}

#[test]
fn test_parse_mixed_content() {
    let content = "# Shell config\n\nexport PATH=$HOME/bin:$PATH\nalias gs='git status'\n# Git aliases\nalias ll='ls -la'\n";
    let aliases = parse_aliases_from_content(content);
    assert_eq!(aliases.len(), 2);
    assert_eq!(aliases[0].name, "gs");
    assert_eq!(aliases[1].name, "ll");
}

#[test]
fn test_parse_empty_content() {
    let aliases = parse_aliases_from_content("");
    assert!(aliases.is_empty());
}

#[test]
fn test_parse_content_only_comments() {
    let content = "# comment 1\n# comment 2\n";
    let aliases = parse_aliases_from_content(content);
    assert!(aliases.is_empty());
}

#[test]
fn test_rebuild_empty_content_with_new_aliases() {
    let content = "";
    let aliases = vec![al("gs", "git status"), al("ll", "ls -la")];
    let result = rebuild_config_content(content, &aliases);
    assert!(result.contains("alias gs='git status'"));
    assert!(result.contains("alias ll='ls -la'"));
}

#[test]
fn test_rebuild_removes_alias() {
    let content = "alias gs='git status'\nalias ll='ls -la'\n";
    let aliases = vec![al("gs", "git status")];
    let result = rebuild_config_content(content, &aliases);
    assert!(result.contains("alias gs='git status'"));
    assert!(!result.contains("alias ll="));
}

#[test]
fn test_rebuild_updates_alias() {
    let content = "alias gs='git status'\n";
    let aliases = vec![al("gs", "git status --short")];
    let result = rebuild_config_content(content, &aliases);
    assert!(result.contains("alias gs='git status --short'"));
    assert!(!result.contains("alias gs='git status'"));
}

#[test]
fn test_rebuild_appends_new_alias() {
    let content = "alias gs='git status'\n";
    let aliases = vec![al("gs", "git status"), al("ll", "ls -la")];
    let result = rebuild_config_content(content, &aliases);
    assert!(result.contains("alias gs='git status'"));
    assert!(result.contains("alias ll='ls -la'"));
    let gs_pos = result.find("alias gs=").unwrap();
    let ll_pos = result.find("alias ll=").unwrap();
    assert!(gs_pos < ll_pos, "a new alias is appended after the existing ones");
}

#[test]
fn test_rebuild_preserves_line_order() {
    let content =
        "# Header\nalias gs='git status'\nexport FOO=bar\nalias ll='ls -la'\n# Footer\n";
    let aliases = vec![al("gs", "git status --short"), al("ll", "ls -la")];
    let result = rebuild_config_content(content, &aliases);

    let header_pos = result.find("# Header").unwrap();
    let export_pos = result.find("export FOO=bar").unwrap();
    let gs_pos = result.find("alias gs=").unwrap();
    let ll_pos = result.find("alias ll=").unwrap();
    let footer_pos = result.find("# Footer").unwrap();

    assert!(header_pos < export_pos);
    assert!(export_pos < footer_pos);
    assert!(gs_pos < ll_pos);
}

#[test]
fn test_rebuild_ends_with_newline() {
    let content = "alias gs='git status'\n";
    let aliases = vec![al("gs", "git status")];
    let result = rebuild_config_content(content, &aliases);
    assert!(result.ends_with('\n'), "the rebuilt text ends with a line break");
}

#[test]
fn test_rebuild_empty_aliases_removes_all() {
    let content = "alias gs='git status'\nalias ll='ls -la'\n";
    let aliases: Vec<Alias> = vec![];
    let result = rebuild_config_content(content, &aliases);
    assert!(!result.contains("alias "));
    assert_eq!(result, "");
}

#[test]
fn test_add_alias_to_empty_content() {
    let content = "";
    let alias = al("gs", "git status");
    let result = add_alias_to_content(content, &alias).unwrap();
    assert!(result.contains("alias gs='git status'"));
}

#[test]
fn test_add_alias_to_content_with_existing() {
    let content = "alias ll='ls -la'\n";
    let alias = al("gs", "git status");
    let result = add_alias_to_content(content, &alias).unwrap();
    assert!(result.contains("alias ll='ls -la'"));
    assert!(result.contains("alias gs='git status'"));
}

#[test]
fn test_add_alias_duplicate_returns_error() {
    let content = "alias gs='git status'\n";
    let alias = al("gs", "git status --short");
    let result = add_alias_to_content(content, &alias);
    assert!(result.is_err());
    match result.unwrap_err() {
        AppError::AliasExists(name) => assert_eq!(name, "gs"),
        other => panic!("expected AliasExists, got {:?}", other),
    }
}

#[test]
fn test_add_alias_to_content_without_trailing_newline() {
    let content = "alias ll='ls -la'";
    let alias = al("gs", "git status");
    let result = add_alias_to_content(content, &alias).unwrap();
    assert!(result.contains("alias ll='ls -la'\n"));
    assert!(result.contains("alias gs='git status'"));
}

#[test]
fn test_update_alias_command_only() {
    let content = "alias gs='git status'\n";
    let alias = al("gs", "git status --short");
    let result = update_alias_in_content(content, "gs", &alias).unwrap();
    assert!(result.contains("alias gs='git status --short'"));
    assert!(!result.contains("alias gs='git status'"));
}

#[test]
fn alias_parser_test_update_alias_rename() {
    let content = "alias gs='git status'\n";
    let alias = al("gitstatus", "git status");
    let result = update_alias_in_content(content, "gs", &alias).unwrap();
    assert!(result.contains("alias gitstatus='git status'"));
    assert!(!result.contains("alias gs="));
}

#[test]
fn test_update_alias_rename_conflict() {
    let content = "alias gs='git status'\nalias ll='ls -la'\n";
    let alias = al("ll", "git status");
    let result = update_alias_in_content(content, "gs", &alias);
    assert!(result.is_err());
    match result.unwrap_err() {
        AppError::AliasExists(name) => assert_eq!(name, "ll"),
        other => panic!("expected AliasExists, got {:?}", other),
    }
}

#[test]
fn alias_parser_test_update_alias_not_found() {
    let content = "alias gs='git status'\n";
    let alias = al("new", "echo hello");
    let result = update_alias_in_content(content, "nonexistent", &alias);
    assert!(result.is_err());
    match result.unwrap_err() {
        AppError::AliasNotFound(name) => assert_eq!(name, "nonexistent"),
        other => panic!("expected AliasNotFound, got {:?}", other),
    }
}

#[test]
fn test_update_alias_same_name_no_conflict() {
    let content = "alias gs='git status'\n";
    let alias = al("gs", "git status -s");
    let result = update_alias_in_content(content, "gs", &alias).unwrap();
    assert!(result.contains("alias gs='git status -s'"));
}

#[test]
fn test_delete_alias_from_content() {
    let content = "alias gs='git status'\nalias ll='ls -la'\n";
    let result = delete_alias_from_content(content, "gs").unwrap();
    assert!(!result.contains("alias gs="));
    assert!(result.contains("alias ll='ls -la'"));
}

#[test]
fn alias_parser_test_delete_alias_not_found() {
    let content = "alias gs='git status'\n";
    let result = delete_alias_from_content(content, "nonexistent");
    assert!(result.is_err());
    match result.unwrap_err() {
        AppError::AliasNotFound(name) => assert_eq!(name, "nonexistent"),
        other => panic!("expected AliasNotFound, got {:?}", other),
    }
}

#[test]
fn test_delete_alias_preserves_non_alias_lines() {
    let content = "# Header\nalias gs='git status'\nexport PATH=$HOME/bin:$PATH\n";
    let result = delete_alias_from_content(content, "gs").unwrap();
    assert!(result.contains("# Header"));
    assert!(result.contains("export PATH=$HOME/bin:$PATH"));
    assert!(!result.contains("alias gs="));
}

#[test]
fn test_format_alias_with_special_chars() {
    let alias = al("build", "cargo build && cargo test");
    assert_eq!(format_alias_line(&alias), "alias build='cargo build && cargo test'");
}

// Further cases.

#[test]
fn tags_comment_is_read_and_cleaned() {
    let tags = parse_tags_comment("  # @tags: git , ,shortcut ").unwrap();
    assert_eq!(tags, vec!["git".to_string(), "shortcut".to_string()]);
    assert!(parse_tags_comment("# @tags: , ").is_none());
    assert!(parse_tags_comment("# tags: git").is_none());
}

#[test]
fn command_value_forms() {
    assert_eq!(parse_command_value("  'a b'  "), Some("a b".to_string()));
    assert_eq!(parse_command_value("\"x\""), Some("x".to_string()));
    assert_eq!(parse_command_value("'"), None);
    assert_eq!(parse_command_value("   "), None);
    assert_eq!(parse_command_value("plain"), Some("plain".to_string()));
}

#[test]
fn tags_attach_to_the_next_alias_only() {
    let content = "# @tags:git,vcs\nalias gs='git status'\nalias ll='ls -la'\n# @tags:x\nexport A=1\nalias gp='git push'\n";
    let aliases = parse_aliases_from_content(content);
    assert_eq!(aliases.len(), 3);
    assert_eq!(aliases[0].tags, vec!["git".to_string(), "vcs".to_string()]);
    assert!(aliases[1].tags.is_empty());
    assert!(aliases[2].tags.is_empty());
}

#[test]
fn format_with_tags_writes_comment_line() {
    let alias = Alias::with_tags("gs".to_string(), "git status".to_string(), vec!["git".to_string(), "vcs".to_string()]);
    assert_eq!(format_alias_line(&alias), "# @tags:git,vcs\nalias gs='git status'");
    let parsed = parse_aliases_from_content(&format_alias_line(&alias));
    assert_eq!(parsed, vec![alias]);
}

#[test]
fn crlf_lines_are_read() {
    let aliases = parse_aliases_from_content("alias gs='git status'\r\nalias ll=ls\r\n");
    assert_eq!(aliases.len(), 2);
    assert_eq!(aliases[1].command, "ls");
}

#[test]
fn rebuild_replaces_tagged_pair_and_drops_removed_pair() {
    let content = "# @tags:old\nalias gs='git status'\n# @tags:x\nalias ll='ls'\nexport A=1";
    let gs = Alias::with_tags("gs".to_string(), "git status".to_string(), vec!["new".to_string()]);
    let result = rebuild_config_content(content, &[gs]);
    assert_eq!(result, "# @tags:new\nalias gs='git status'\nexport A=1\n");
}

#[test]
fn add_after_unterminated_text() {
    let result = add_alias_to_content("export A=1", &al("a", "b")).unwrap();
    assert_eq!(result, "export A=1\nalias a='b'\n");
}

#[test]
fn rebuild_drops_every_tags_comment_above_a_rewritten_alias() {
    let content = "# @tags:a\n# @tags:b\nalias gs='x'\n";
    let result = rebuild_config_content(content, &[al("gs", "x")]);
    assert_eq!(result, "alias gs='x'\n");
    assert_eq!(parse_aliases_from_content(&result), vec![al("gs", "x")]);
}

#[test]
fn rebuild_drops_tags_comments_of_a_removed_alias() {
    let content = "# keep\n# @tags:a\nalias gs='x'\nexport A=1\n";
    let result = rebuild_config_content(content, &[]);
    assert_eq!(result, "# keep\nexport A=1\n");
}

#[test]
fn rebuild_keeps_a_tags_comment_not_above_an_alias() {
    let content = "# @tags:a\n\nalias gs='x'\n";
    let result = rebuild_config_content(content, &[al("gs", "y")]);
    assert_eq!(result, "# @tags:a\n\nalias gs='y'\n");
}

#[test]
fn rebuild_keeps_a_final_empty_line() {
    assert_eq!(rebuild_config_content("a\n\n", &[]), "a\n\n");
    assert_eq!(rebuild_config_content("a", &[]), "a\n");
    assert_eq!(rebuild_config_content("", &[]), "");
}

#[test]
fn formatted_lines_joined_read_back() {
    let mut gs = al("gs", "git status");
    gs.tags = vec!["git".to_string(), "vcs".to_string()];
    let v = vec![gs, al("ll", "ls -la"), al("gp", "git push")];
    let text = v.iter().map(format_alias_line).collect::<Vec<_>>().join("\n");
    assert_eq!(parse_aliases_from_content(&text), v);
}

#[test]
fn tags_come_from_the_line_just_above() {
    let v = parse_aliases_from_content("# @tags:a\n\nalias gs='x'\n# @tags:b\n# @tags:c\nalias ll='y'\n");
    let mut ll = al("ll", "y");
    ll.tags = vec!["c".to_string()];
    assert_eq!(v, vec![al("gs", "x"), ll]);
}
