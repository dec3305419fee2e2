use alias_manager::alias::Alias;
use alias_manager::template::TemplateCategory;
use alias_manager::ui::alias_filter::filtered_aliases;
use alias_manager::ui::command_error::CommandError;
use alias_manager::ui::config_viewer::{tok_class, tokenize_line, Tok};
use alias_manager::ui::i18n::{translate, Locale};
use alias_manager::ui::import_preview::{
    build_import_preview, import_plan, overwrite_all_conflicts, toggle_overwrite, ImportStatus,
};
use alias_manager::ui::pages::{
    alias_count_text, check_alias_form, conflict_alias_name, custom_template, delete_notice,
    import_notice, initial_theme, nav_active, tags_field_text, ImportTally, template_import_notice, toggle_select_all, toggle_selected,
    Notice,
};
use alias_manager::ui::utils::{name_invalid_reason, tag_color_class, validate_alias_name};

fn alias(name: &str, command: &str, tags: &[&str]) -> Alias {
    Alias::with_tags(
        name.to_string(),
        command.to_string(),
        tags.iter().map(|t| t.to_string()).collect(),
    )
}

// --- configuration viewer ---

#[test]
fn test_full_line_comment() {
    let toks = tokenize_line("# a comment");
    assert_eq!(toks.len(), 1);
    assert_eq!(toks[0].0, Tok::Comment);
}

#[test]
fn test_alias_line() {
    let toks = tokenize_line("alias gs='git status' # shortcut");
    assert_eq!(toks[0], (Tok::Keyword, "alias".to_string()));
    assert!(toks.iter().any(|(t, s)| *t == Tok::Str && s == "'git status'"));
    assert_eq!(toks.last().unwrap().0, Tok::Comment);
}

#[test]
fn test_double_quoted_string_with_escape() {
    let toks = tokenize_line("export GREETING=\"hi \\\"world\\\"\"");
    assert_eq!(toks[0].0, Tok::Keyword);
    let strs: Vec<&String> = toks.iter().filter(|(t, _)| *t == Tok::Str).map(|(_, s)| s).collect();
    assert_eq!(strs.len(), 1);
    assert!(strs[0].starts_with('"') && strs[0].ends_with('"'));
}

#[test]
fn test_variable_token() {
    let toks = tokenize_line("source $HOME/.aliases");
    assert_eq!(toks[0].0, Tok::Keyword);
    assert!(toks.iter().any(|(t, s)| *t == Tok::Variable && s == "$HOME"));
}

#[test]
fn test_non_keyword_word_not_highlighted() {
    let toks = tokenize_line("myfunc() { echo hi; }");
    assert!(!toks.iter().any(|(t, _)| *t == Tok::Keyword));
}

#[test]
fn tokens_join_back_to_the_line() {
    for line in [
        "alias gs='git status' # shortcut",
        "  export PATH=\"$HOME/bin:${PATH}\" ",
        "echo 'unclosed",
        "x=1#not a comment",
        "",
        "   # indented comment",
    ] {
        let toks = tokenize_line(line);
        let joined: String = toks.iter().map(|(_, s)| s.as_str()).collect();
        assert_eq!(joined, line);
    }
}

#[test]
fn tokenize_exact_tokens() {
    assert_eq!(
        tokenize_line("export X=${Y}"),
        vec![
            (Tok::Keyword, "export".to_string()),
            (Tok::Plain, " X=".to_string()),
            (Tok::Variable, "${Y}".to_string()),
        ]
    );
    assert_eq!(
        tokenize_line("echo alias"),
        vec![(Tok::Plain, "echo alias".to_string())]
    );
    assert!(tokenize_line("").is_empty());
    assert_eq!(tok_class(Tok::Str), "tok-string");
    assert_eq!(tok_class(Tok::Plain), "");
}

// --- import preview ---

#[test]
fn test_preview_classifies_new_unchanged_conflict() {
    let existing = vec![alias("gs", "git status", &[]), alias("ll", "ls -la", &["file"])];
    let parsed = vec![
        alias("gp", "git push", &[]),
        alias("gs", "git status", &[]),
        alias("ll", "ls -lah", &["file"]),
    ];
    let (rows, dup) = build_import_preview(parsed, &existing);
    assert_eq!(dup, 0);
    assert_eq!(rows.len(), 3);
    assert_eq!(rows[0].status, ImportStatus::New);
    assert_eq!(rows[1].status, ImportStatus::Unchanged);
    assert_eq!(rows[2].status, ImportStatus::Conflict);
    assert!(!rows[2].overwrite);
}

#[test]
fn test_preview_marks_invalid_entries() {
    let parsed = vec![
        alias("bad name", "echo hi", &[]),
        alias("", "echo hi", &[]),
        alias("ok", "   ", &[]),
    ];
    let (rows, _) = build_import_preview(parsed, &[]);
    assert_eq!(rows.len(), 3);
    assert_eq!(rows[0].status, ImportStatus::Invalid);
    assert_eq!(rows[0].reason_key, Some("validate.name_chars"));
    assert_eq!(rows[1].status, ImportStatus::Invalid);
    assert_eq!(rows[1].reason_key, Some("validate.name_empty"));
    assert_eq!(rows[2].status, ImportStatus::Invalid);
    assert_eq!(rows[2].reason_key, Some("validate.command_empty"));
}

#[test]
fn test_preview_merges_duplicates_last_wins() {
    let parsed = vec![alias("gs", "git status", &[]), alias("gs", "git status --short", &["git"])];
    let (rows, dup) = build_import_preview(parsed, &[]);
    assert_eq!(dup, 1);
    assert_eq!(rows.len(), 1);
    assert_eq!(rows[0].alias.command, "git status --short");
    assert_eq!(rows[0].alias.tags, vec!["git".to_string()]);
}

#[test]
fn test_preview_tags_participate_in_conflict_detection() {
    let existing = vec![alias("gs", "git status", &[])];
    let parsed = vec![alias("gs", "git status", &["git"])];
    let (rows, _) = build_import_preview(parsed, &existing);
    assert_eq!(rows[0].status, ImportStatus::Conflict);
}

#[test]
fn preview_keeps_unnamed_entries_and_counts() {
    let parsed = vec![
        alias("", "a", &[]),
        alias("x", "1", &[]),
        alias("", "b", &[]),
        alias("x", "2", &[]),
        alias("-y", "3", &[]),
    ];
    let (rows, dup) = build_import_preview(parsed, &[]);
    assert_eq!(rows.len() + dup, 5);
    assert_eq!(rows.len(), 4);
    assert_eq!(rows[1].alias.command, "2");
    assert_eq!(rows[1].status, ImportStatus::New);
    assert_eq!(rows[3].reason_key, Some("validate.name_hyphen"));
}

// --- search ---

#[test]
fn filter_matches_name_command_and_tags() {
    let aliases = vec![
        alias("gs", "git status", &["Git"]),
        alias("ll", "ls -la", &["files"]),
        alias("dps", "docker ps", &[]),
    ];
    assert_eq!(filtered_aliases(&aliases, "").len(), 3);
    let r = filtered_aliases(&aliases, "GIT");
    assert_eq!(r.len(), 1);
    assert_eq!(r[0].name, "gs");
    let r = filtered_aliases(&aliases, "FILE");
    assert_eq!(r.len(), 1);
    assert_eq!(r[0].name, "ll");
    let r = filtered_aliases(&aliases, "s");
    assert_eq!(r.len(), 3);
    assert!(filtered_aliases(&aliases, "zzz").is_empty());
}

// --- error texts ---

fn cmd_err(code: &str, message: &str, detail: Option<&str>) -> CommandError {
    CommandError {
        code: code.to_string(),
        message: message.to_string(),
        detail: detail.map(|d| d.to_string()),
    }
}

#[test]
fn command_error_translated_with_detail() {
    let e = cmd_err("alias_conflict", "Alias \"gs\" already exists", Some("gs"));
    assert_eq!(e.display(Locale::En), "Alias \"gs\" already exists");
    let e = cmd_err("config_not_found", "Config file not found: /x", Some("/x"));
    assert_eq!(e.display(Locale::En), "Config file not found: /x");
}

#[test]
fn command_error_without_detail_drops_the_placeholder() {
    let e = cmd_err("network_error", "Network error", None);
    assert_eq!(e.display(Locale::En), "Network error");
    let e = cmd_err("rate_limited", "rate", None);
    assert_eq!(e.display(Locale::En), "GitHub API rate limited, please try again later");
}

#[test]
fn command_error_falls_back_to_the_message() {
    let e = cmd_err("internal", "bridge broke", Some("ctx"));
    assert_eq!(e.display(Locale::En), "bridge broke (ctx)");
    let e = cmd_err("unknown", "plain", None);
    assert_eq!(e.display(Locale::Zh), "plain");
    let e = cmd_err("no_such_code", "fallback", None);
    assert_eq!(e.display(Locale::En), "fallback");
    let i = CommandError::internal("oops".to_string());
    assert_eq!(i.code, "internal");
    assert_eq!(i.display(Locale::En), "oops");
}

#[test]
fn command_error_describe() {
    assert_eq!(cmd_err("x", "m", Some("d")).describe(), "[x] m (d)");
    assert_eq!(cmd_err("x", "m", None).describe(), "[x] m");
}

// --- translations and helpers ---

#[test]
fn translations() {
    assert_eq!(translate(Locale::En, "nav.aliases"), "Aliases");
    assert_eq!(translate(Locale::En, "no.such.key"), "[missing]");
    assert_eq!(translate(Locale::Zh, "config_viewer.close"), "关闭");
    assert_eq!("zh".parse::<Locale>(), Ok(Locale::Zh));
    assert_eq!(Locale::default(), Locale::En);
    assert_eq!(Locale::Zh.as_str(), "zh");
}

#[test]
fn category_labels_by_language() {
    assert_eq!(TemplateCategory::Git.label_in(Locale::Zh), "Git");
    assert_eq!(
        TemplateCategory::FileOps.label_in(Locale::En),
        translate(Locale::En, "category.file_ops")
    );
}

#[test]
fn tag_colour_is_stable_and_from_the_palette() {
    let palette = ["tag--blue", "tag--green", "tag--purple", "tag--orange", "tag--pink", "tag--cyan"];
    for tag in ["git", "docker", "文件", ""] {
        let c = tag_color_class(tag);
        assert!(palette.contains(&c));
        assert_eq!(c, tag_color_class(tag));
    }
    // the empty tag keeps the seed 5381, and 5381 % 6 == 5
    assert_eq!(tag_color_class(""), "tag--cyan");
}

#[test]
fn name_checks_in_the_interface() {
    assert_eq!(name_invalid_reason("ok_name"), None);
    assert_eq!(name_invalid_reason(""), Some("validate.name_empty"));
    assert_eq!(name_invalid_reason("-a"), Some("validate.name_hyphen"));
    assert_eq!(name_invalid_reason("a b"), Some("validate.name_chars"));
    assert!(validate_alias_name("gs", Locale::En).is_ok());
    assert_eq!(
        validate_alias_name("", Locale::En),
        Err(translate(Locale::En, "validate.name_empty"))
    );
}

// --- pages ---

#[test]
fn selection_toggles() {
    let sel = toggle_selected(vec!["a".to_string(), "b".to_string()], "a".to_string());
    assert_eq!(sel, vec!["b".to_string()]);
    let sel = toggle_selected(sel, "c".to_string());
    assert_eq!(sel, vec!["b".to_string(), "c".to_string()]);
    let visible = vec![alias("b", "1", &[]), alias("c", "2", &[])];
    assert!(toggle_select_all(&visible, sel).is_empty());
    assert_eq!(
        toggle_select_all(&visible, vec!["b".to_string()]),
        vec!["b".to_string(), "c".to_string()]
    );
}

#[test]
fn counts_above_the_list() {
    assert_eq!(alias_count_text(Locale::En, 5, 5, false), translate(Locale::En, "alias.count").replace("{}", "5"));
    let filtered = translate(Locale::En, "alias.count_filtered")
        .replacen("{}", "2", 1)
        .replacen("{}", "5", 1);
    assert_eq!(alias_count_text(Locale::En, 5, 2, true), filtered);
}

#[test]
fn alias_form_checks() {
    let c = check_alias_form("gs", "git status", " git, vcs ,, ");
    assert!(c.name_error.is_none());
    assert!(c.command_error.is_none());
    assert_eq!(c.tags, vec!["git".to_string(), "vcs".to_string()]);
    let c = check_alias_form("", "", "");
    assert_eq!(c.name_error, Some("别名名称不能为空".to_string()));
    assert_eq!(c.command_error, Some("命令不能为空".to_string()));
    assert!(c.tags.is_empty());
    let c = check_alias_form("-x", "y", "");
    assert_eq!(c.name_error, Some("别名名称不能以连字符开头".to_string()));
    let c = check_alias_form("a b", "y", "");
    assert_eq!(c.name_error, Some("别名名称只能包含字母、数字、下划线和连字符".to_string()));
    assert_eq!(tags_field_text(&vec!["git".to_string(), "vcs".to_string()]), "git, vcs");
}

#[test]
fn import_plan_splits_rows() {
    let existing = vec![alias("gs", "git status", &[]), alias("ll", "ls", &[]), alias("x", "1", &[])];
    let parsed = vec![
        alias("gp", "git push", &[]),
        alias("gs", "git status -s", &[]),
        alias("ll", "ls -la", &[]),
        alias("x", "1", &[]),
        alias("bad name", "1", &[]),
    ];
    let (mut rows, _) = build_import_preview(parsed, &existing);
    let (add, over) = import_plan(&rows);
    assert_eq!(add.len(), 1);
    assert_eq!(add[0].name, "gp");
    assert!(over.is_empty());
    toggle_overwrite(&mut rows, 1);
    assert!(rows[1].overwrite);
    let (_, over) = import_plan(&rows);
    assert_eq!(over.len(), 1);
    assert_eq!(over[0].name, "gs");
    toggle_overwrite(&mut rows, 99);
    overwrite_all_conflicts(&mut rows);
    assert!(rows[1].overwrite && rows[2].overwrite);
    assert!(!rows[3].overwrite && !rows[4].overwrite);
    let (_, over) = import_plan(&rows);
    assert_eq!(over.len(), 2);
}

#[test]
fn notices_after_changes() {
    assert_eq!(import_notice(Locale::En, 0, &vec![]), Notice::Nothing);
    assert_eq!(import_notice(Locale::En, 3, &vec![]), Notice::Success("Imported 3 aliases".to_string()));
    assert_eq!(
        import_notice(Locale::En, 1, &vec!["a: x".to_string(), "b: y".to_string()]),
        Notice::Failure("Imported 1 aliases, failed: a: x, b: y".to_string())
    );
    assert_eq!(delete_notice(Locale::En, 2, &vec![]), Notice::Success("Deleted 2 aliases".to_string()));
    assert_eq!(
        delete_notice(Locale::En, 2, &vec!["z".to_string()]),
        Notice::Failure("Some deletions failed: z".to_string())
    );
    // the first placeholder takes the imported count, the next the skipped count
    assert_eq!(template_import_notice(Locale::En, 2, 1), "Imported 2 new, skipped 1 existing");
}

#[test]
fn conflict_and_custom_template() {
    let e = cmd_err("alias_conflict", "m", Some("gs"));
    assert_eq!(conflict_alias_name(&e, "typed"), Some("gs".to_string()));
    let e = cmd_err("alias_conflict", "m", None);
    assert_eq!(conflict_alias_name(&e, "typed"), Some("typed".to_string()));
    let e = cmd_err("io_error", "m", None);
    assert_eq!(conflict_alias_name(&e, "typed"), None);
    let t = custom_template(" gs ", " git status ", " show ").unwrap();
    assert_eq!(t.name, "gs");
    assert_eq!(t.command, "git status");
    assert_eq!(t.description, "show");
    assert_eq!(t.category, TemplateCategory::Custom);
    assert!(custom_template("  ", "x", "").is_none());
}

#[test]
fn import_tally_sums_batches_and_stops_after_a_failed_one() {
    let mut tally = ImportTally::new();
    assert!(tally.runs_next(2));
    assert!(!tally.runs_next(0));
    tally.record(Some((2, vec!["bad name: Invalid alias name".to_string()])));
    assert!(tally.runs_next(1));
    tally.record(Some((1, vec![])));
    assert_eq!(tally.success, 3);
    assert_eq!(tally.errors, vec!["bad name: Invalid alias name".to_string()]);
    tally.record(None);
    assert!(tally.failed);
    assert!(!tally.runs_next(5));
    assert_eq!(tally.success, 3);
}

#[test]
fn navigation_highlight() {
    assert!(nav_active("/", "/"));
    assert!(nav_active("/", "/aliases"));
    assert!(!nav_active("/", "/templates"));
    assert!(nav_active("/templates", "/templates"));
    assert!(nav_active("/templates", "/templates/git"));
    assert!(!nav_active("/settings", "/templates"));
}

#[test]
fn theme_at_start() {
    assert_eq!(initial_theme(Some("dark"), Some(false)), Some(true));
    assert_eq!(initial_theme(Some("light"), Some(true)), Some(false));
    assert_eq!(initial_theme(Some("blue"), Some(true)), Some(true));
    assert_eq!(initial_theme(None, None), None);
    assert_eq!(initial_theme(None, Some(false)), Some(false));
}
