use alias_manager::alias::Alias;
use alias_manager::app_settings::{AppSettings, SettingsCache};
use alias_manager::commands::{
    filter_templates, import_result, is_config_event, prepare_new_alias, select_templates,
    should_announce_change, update_dialog, watcher_needs_restart,
};
use alias_manager::config_backup::{
    add_to_index, backup_dir, backup_file_path, backup_id, find_backup, index_path, list_sorted,
    missing_backup_file, new_entry, should_back_up, BackupEntry, MAX_BACKUPS,
};
use alias_manager::error::AppError;
use alias_manager::paths::{join, path_file_name, temp_file_name};
use alias_manager::shell_config::ShellConfigManager;
use alias_manager::shell_type::ShellType;
use alias_manager::template::{Template, TemplateCategory};
use alias_manager::update_checker::UpdateInfo;
use alias_manager::user_template_store::{delete, file_path, upsert};

fn entry(id: &str, at: u64) -> BackupEntry {
    BackupEntry { id: id.to_string(), original_path: "/h/.zshrc".to_string(), created_at: at, size: 1 }
}

fn tpl(name: &str, cat: TemplateCategory) -> Template {
    Template::with_tags(
        name.to_string(),
        format!("cmd {}", name),
        String::new(),
        cat,
        vec!["t".to_string()],
    )
}

// --- backups ---

#[test]
fn backup_paths_and_ids() {
    assert_eq!(backup_dir("/data"), "/data/backups");
    assert_eq!(index_path("/data"), "/data/backups/backups.json");
    assert_eq!(backup_file_path("/data", "17-42"), "/data/backups/17-42.bak");
    assert_eq!(backup_id(1700000000000, 42), "1700000000000-42");
    let e = new_entry("/h/.bashrc", 5, 7, 99);
    assert_eq!(e.id, "5-7");
    assert_eq!(e.original_path, "/h/.bashrc");
    assert_eq!(e.created_at, 5);
    assert_eq!(e.size, 99);
}

#[test]
fn backup_retention_keeps_the_newest() {
    let mut index: Vec<BackupEntry> = Vec::new();
    let mut removed_all: Vec<String> = Vec::new();
    for i in 0..(MAX_BACKUPS as u64 + 3) {
        let (kept, removed) = add_to_index(index, entry(&format!("b{}", i), i));
        index = kept;
        removed_all.extend(removed);
        assert!(index.len() <= MAX_BACKUPS);
    }
    assert_eq!(index.len(), MAX_BACKUPS);
    assert_eq!(removed_all, vec!["b0".to_string(), "b1".to_string(), "b2".to_string()]);
    assert_eq!(index[0].id, "b3");
    assert_eq!(index.last().unwrap().id, format!("b{}", MAX_BACKUPS + 2));
}

#[test]
fn backups_listed_newest_first() {
    let v = vec![entry("a", 3), entry("b", 9), entry("c", 1), entry("d", 9)];
    let sorted = list_sorted(v);
    let ids: Vec<&str> = sorted.iter().map(|e| e.id.as_str()).collect();
    assert_eq!(ids, vec!["b", "d", "a", "c"]);
}

#[test]
fn find_backup_by_id() {
    let v = vec![entry("a", 3), entry("b", 9)];
    assert_eq!(find_backup(&v, "b").unwrap().created_at, 9);
    match find_backup(&v, "zz") {
        Err(AppError::ConfigNotFound(m)) => assert_eq!(m, "backup zz"),
        _ => panic!(),
    }
    match missing_backup_file("a") {
        AppError::ConfigNotFound(m) => assert_eq!(m, "backup file for a"),
        _ => panic!(),
    }
}

// --- user templates ---

#[test]
fn user_templates_upsert_and_delete() {
    assert_eq!(file_path("/data"), "/data/user_templates.json");
    let v = upsert(Vec::new(), tpl("a", TemplateCategory::Custom));
    let v = upsert(v, tpl("b", TemplateCategory::Custom));
    let mut changed = tpl("a", TemplateCategory::Custom);
    changed.command = "new".to_string();
    let v = upsert(v, changed);
    assert_eq!(v.len(), 2);
    assert_eq!(v[0].command, "new");
    let v = delete(v, "a");
    assert_eq!(v.len(), 1);
    assert_eq!(v[0].name, "b");
    let v = delete(v, "missing");
    assert_eq!(v.len(), 1);
}

// --- commands ---

#[test]
fn adding_an_existing_name_is_a_conflict() {
    let existing = ShellConfigManager::list_aliases("alias gs='git status'\n");
    match prepare_new_alias(&existing, "gs".to_string(), "x".to_string(), None) {
        Err(AppError::AliasConflict(n)) => assert_eq!(n, "gs"),
        _ => panic!(),
    }
    let a = prepare_new_alias(&existing, "ll".to_string(), "ls".to_string(), None).unwrap();
    assert_eq!(a, Alias::new("ll".to_string(), "ls".to_string()));
    let b = prepare_new_alias(&existing, "gp".to_string(), "git push".to_string(), Some(vec!["git".to_string()]))
        .unwrap();
    assert_eq!(b.tags, vec!["git".to_string()]);
}

#[test]
fn templates_filtered_by_category() {
    let all = vec![
        tpl("gs", TemplateCategory::Git),
        tpl("dps", TemplateCategory::Docker),
        tpl("gp", TemplateCategory::Git),
    ];
    let git = filter_templates(all.clone(), Some("GIT".to_string()));
    assert_eq!(git.iter().map(|t| t.name.as_str()).collect::<Vec<_>>(), vec!["gs", "gp"]);
    assert_eq!(filter_templates(all.clone(), Some("nope".to_string())).len(), 3);
    assert_eq!(filter_templates(all.clone(), None).len(), 3);
    assert!(filter_templates(all, Some("network".to_string())).is_empty());
}

#[test]
fn templates_selected_for_import() {
    let all = vec![tpl("gs", TemplateCategory::Git), tpl("dps", TemplateCategory::Docker)];
    let chosen = select_templates(&all, &["dps".to_string(), "zz".to_string()]);
    assert_eq!(chosen.len(), 1);
    assert_eq!(chosen[0].name, "dps");
    assert_eq!(chosen[0].command, "cmd dps");
    assert_eq!(chosen[0].tags, vec!["t".to_string()]);
    let (outcome, _) = ShellConfigManager::add_aliases_batch("alias dps='x'\n", &chosen);
    let r = import_result(&outcome);
    assert_eq!(r.imported, 0);
    assert_eq!(r.skipped, 1);
}

#[test]
fn config_events() {
    let target = "/home/u/.zshrc";
    assert!(is_config_event(true, &["/home/u/.zshrc".to_string()], target));
    assert!(is_config_event(true, &["/tmp/x".to_string(), "/other/.zshrc".to_string()], target));
    assert!(!is_config_event(false, &["/home/u/.zshrc".to_string()], target));
    assert!(!is_config_event(true, &["/home/u/.bashrc".to_string()], target));
    assert!(!is_config_event(true, &[], target));
    assert!(should_announce_change(true, &["/home/u/.zshrc".to_string()], target, true));
    assert!(!should_announce_change(true, &["/home/u/.zshrc".to_string()], target, false));
}

#[test]
fn watcher_restart_when_the_path_changes() {
    let a = AppSettings::default_for(ShellType::Zsh);
    let mut b = AppSettings::default_for(ShellType::Bash);
    assert!(!watcher_needs_restart(&a, &b));
    b.custom_config_path = Some("/x".to_string());
    assert!(watcher_needs_restart(&a, &b));
    let mut c = a.clone();
    c.custom_config_path = Some("/x".to_string());
    assert!(!watcher_needs_restart(&c, &b));
}

#[test]
fn update_dialog_texts() {
    let info = UpdateInfo {
        current_version: "0.1.0".to_string(),
        latest_version: "0.2.0".to_string(),
        has_update: true,
        release_url: "https://example.com/r".to_string(),
        release_notes: None,
        published_at: None,
    };
    let d = update_dialog(false, &Ok(info.clone()));
    assert_eq!(d.title, "Check for Updates");
    assert_eq!(d.message, "A new version is available!\n\nLatest version: v0.2.0\n\nDownload now?");
    assert_eq!(d.download_url, Some("https://example.com/r".to_string()));
    let mut same = info;
    same.has_update = false;
    let d = update_dialog(true, &Ok(same));
    assert_eq!(d.title, "检查更新");
    assert_eq!(d.message, "当前已是最新版本\n\n最新版本: v0.2.0");
    assert!(d.download_url.is_none());
    let d = update_dialog(false, &Err(AppError::RateLimited));
    assert_eq!(
        d.message,
        "Failed to check for updates\n\nGitHub API rate limited, please try again later"
    );
}

// --- paths ---

#[test]
fn path_helpers() {
    assert_eq!(join("/a", "b"), "/a/b");
    assert_eq!(join("/a/", "b"), "/a/b");
    assert_eq!(join("/a", "/b"), "/b");
    assert_eq!(path_file_name("/home/u/.zshrc"), Some(".zshrc".to_string()));
    assert_eq!(path_file_name("/home/u/"), Some("u".to_string()));
    assert_eq!(path_file_name("/"), None);
    assert_eq!(path_file_name("a/.."), None);
    assert_eq!(temp_file_name(Some(".zshrc"), 42), "..zshrc.tmp.42");
    assert_eq!(temp_file_name(None, 7), ".unknown.tmp.7");
}

#[test]
fn settings_cache_reads_back() {
    let mut cache = SettingsCache::new();
    assert!(cache.get().is_none());
    let mut s = AppSettings::default_for(ShellType::Fish);
    s.custom_config_path = Some("/x".to_string());
    cache.store(&s);
    let read = cache.get().unwrap();
    assert_eq!(read.shell_type, ShellType::Fish);
    assert_eq!(read.custom_config_path, Some("/x".to_string()));
    cache.invalidate();
    assert!(cache.get().is_none());
}

#[test]
fn backup_only_for_a_file_with_content() {
    assert!(!should_back_up(None));
    assert!(!should_back_up(Some(&[])));
    assert!(should_back_up(Some(b"alias gs='git status'\n")));
}
