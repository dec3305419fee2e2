//! Interface languages and the translation tables of the user interface.
use vstd::prelude::*;

use crate::error::concat2;
use crate::text::{chars_eq, chars_of, to_lowercase, unicode_lowercase};

verus! {

/// An interface language.
#[derive(Debug, Clone, Copy, PartialEq, Eq, Structural)]
pub enum Locale {
    /// English (the default).
    En,
    /// Simplified Chinese.
    Zh,
}

/// The short code of a language.
pub open spec fn locale_code(l: Locale) -> Seq<char> {
    match l {
        Locale::En => "en"@,
        Locale::Zh => "zh"@,
    }
}

/// The language whose short code is `s`, if any.
pub open spec fn locale_of_code(s: Seq<char>) -> Option<Locale> {
    if s == "en"@ {
        Some(Locale::En)
    } else if s == "zh"@ {
        Some(Locale::Zh)
    } else {
        None
    }
}

/// The language-code law: each language's code names that language and no
/// other text names it.
pub proof fn lemma_locale_codes(l: Locale)
    ensures
        locale_of_code(locale_code(l)) == Some(l),
        forall|s: Seq<char>| #[trigger] locale_of_code(s) == Some(l) ==> s == locale_code(l),
{
    reveal_strlit("en");
    reveal_strlit("zh");
    assert("en"@[0] != "zh"@[0]);
}

impl Default for Locale {
    fn default() -> (r: Locale)
        ensures
            r == Locale::En,
    {
        Locale::En
    }
}

impl Locale {
    /// The name of the language in itself: `English` or `中文`.
    pub fn label(&self) -> (r: &'static str)
        ensures
            r@ == match *self {
                Locale::En => "English"@,
                Locale::Zh => "中文"@,
            },
    {
        match self {
            Locale::En => "English",
            Locale::Zh => "中文",
        }
    }

    /// All languages: English, then Chinese.
    pub fn all() -> (r: Vec<Locale>)
        ensures
            r@ == seq![Locale::En, Locale::Zh],
    {
        let r = vec![Locale::En, Locale::Zh];
        assert(r@ =~= seq![Locale::En, Locale::Zh]);
        r
    }

    /// The short code (`en`, `zh`), which is how the language is displayed.
    pub fn as_str(&self) -> (r: &'static str)
        ensures
            r@ == locale_code(*self),
    {
        match self {
            Locale::En => "en",
            Locale::Zh => "zh",
        }
    }

    /// The displayed text of the language: its short code.
    pub fn display(&self) -> (r: String)
        ensures
            r@ == locale_code(*self),
    {
        String::from_str(self.as_str())
    }

    /// The language with short code `s`, compared without regard to case; an
    /// error message naming `s` otherwise.
    pub fn parse(s: &str) -> (r: Result<Locale, String>)
        ensures
            match locale_of_code(unicode_lowercase(s@)) {
                Some(l) => r == Ok::<Locale, String>(l),
                None => r matches Err(m) && m@ == "Unknown locale: "@ + s@,
            },
    {
        let lower = to_lowercase(s);
        let k = chars_of(lower.as_str());
        if lit_is(&k, "en") {
            Ok(Locale::En)
        } else if lit_is(&k, "zh") {
            Ok(Locale::Zh)
        } else {
            Err(concat2("Unknown locale: ", s))
        }
    }
}

impl std::str::FromStr for Locale {
    type Err = String;

    fn from_str(s: &str) -> (r: Result<Self, Self::Err>)
        ensures
            match locale_of_code(unicode_lowercase(s@)) {
                Some(l) => r == Ok::<Locale, String>(l),
                None => r matches Err(m) && m@ == "Unknown locale: "@ + s@,
            },
    {
        Locale::parse(s)
    }
}

/// Whether the characters `k` spell `lit`.
pub fn lit_is(k: &[char], lit: &str) -> (r: bool)
    ensures
        r == (k@ == lit@),
{
    chars_eq(k, &chars_of(lit))
}

/// The English text of a key; `[missing]` for an unknown key.
pub open spec fn en_text(key: Seq<char>) -> Seq<char> {
    if key == "app.title"@ {
        "Alias Manager"@
    } else if key == "page.not_found"@ {
        "Page not found"@
    } else if key == "nav.aliases"@ {
        "Aliases"@
    } else if key == "nav.templates"@ {
        "Templates"@
    } else if key == "nav.settings"@ {
        "Settings"@
    } else if key == "theme.light"@ {
        "Light Mode"@
    } else if key == "theme.dark"@ {
        "Dark Mode"@
    } else if key == "search.placeholder"@ {
        "Search aliases..."@
    } else if key == "alias.import"@ {
        "Import"@
    } else if key == "alias.export"@ {
        "Export"@
    } else if key == "alias.add_btn"@ {
        "+ Add Alias"@
    } else if key == "alias.import_file"@ {
        "Import from File"@
    } else if key == "alias.import_partial"@ {
        "Imported {} aliases, failed: {}"@
    } else if key == "alias.import_preview_title"@ {
        "Import Preview"@
    } else if key == "alias.import_preview_summary"@ {
        "New: {} · Overwritable: {} · Unchanged: {} · Invalid: {}"@
    } else if key == "alias.import_status_new"@ {
        "New"@
    } else if key == "alias.import_status_conflict"@ {
        "Exists"@
    } else if key == "alias.import_status_unchanged"@ {
        "Unchanged"@
    } else if key == "alias.import_status_invalid"@ {
        "Invalid"@
    } else if key == "alias.import_overwrite_col"@ {
        "Overwrite"@
    } else if key == "alias.import_confirm"@ {
        "Import"@
    } else if key == "alias.import_dedup_note"@ {
        "{} duplicate entries in the file were merged (last occurrence wins)"@
    } else if key == "alias.import_overwrite_all"@ {
        "Overwrite All"@
    } else if key == "alias.view_config"@ {
        "View Config"@
    } else if key == "alias.conflict_title"@ {
        "Alias Conflict"@
    } else if key == "alias.conflict_msg"@ {
        "Alias \"{}\" already exists. Overwrite it?"@
    } else if key == "alias.conflict_overwrite"@ {
        "Overwrite"@
    } else if key == "alias.conflict_keep"@ {
        "Keep Existing"@
    } else if key == "alias.json_parse_error"@ {
        "JSON parse failed: {}"@
    } else if key == "alias.delete_partial"@ {
        "Some deletions failed: {}"@
    } else if key == "alias.delete_success"@ {
        "Deleted {} aliases"@
    } else if key == "alias.import_success"@ {
        "Imported {} aliases"@
    } else if key == "alias.count"@ {
        "{} aliases total"@
    } else if key == "alias.count_filtered"@ {
        "Found {} / {} aliases"@
    } else if key == "alias.delete_selected"@ {
        "Delete Selected ({})"@
    } else if key == "alias.select_all"@ {
        "Select All"@
    } else if key == "alias.empty_title"@ {
        "No aliases yet"@
    } else if key == "alias.empty_desc"@ {
        "Click the \"+ Add Alias\" button to create your first alias"@
    } else if key == "alias.search_empty_title"@ {
        "No matching aliases"@
    } else if key == "alias.search_empty_desc"@ {
        "No aliases matching \"{}\""@
    } else if key == "alias.edit"@ {
        "Edit"@
    } else if key == "alias.delete"@ {
        "Delete"@
    } else if key == "form.edit_title"@ {
        "Edit Alias"@
    } else if key == "form.add_title"@ {
        "Add Alias"@
    } else if key == "form.name_label"@ {
        "Alias Name"@
    } else if key == "form.name_placeholder"@ {
        "e.g. gs"@
    } else if key == "form.name_hint"@ {
        "Only letters, numbers, underscores, and hyphens"@
    } else if key == "form.command_label"@ {
        "Command"@
    } else if key == "form.command_placeholder"@ {
        "e.g. git status"@
    } else if key == "form.tags_label"@ {
        "Tags"@
    } else if key == "form.tags_placeholder"@ {
        "e.g. git, shortcut (comma separated)"@
    } else if key == "form.tags_hint"@ {
        "Separate multiple tags with commas"@
    } else if key == "form.cancel"@ {
        "Cancel"@
    } else if key == "form.save"@ {
        "Save"@
    } else if key == "form.add"@ {
        "Add"@
    } else if key == "validate.name_empty"@ {
        "Alias name cannot be empty"@
    } else if key == "validate.name_hyphen"@ {
        "Alias name cannot start with a hyphen"@
    } else if key == "validate.name_chars"@ {
        "Alias name can only contain letters, numbers, underscores, and hyphens"@
    } else if key == "validate.command_empty"@ {
        "Command cannot be empty"@
    } else if key == "template.title"@ {
        "Templates"@
    } else if key == "template.import_selected"@ {
        "Import Selected"@
    } else if key == "template.import_success"@ {
        "Successfully imported {} aliases"@
    } else if key == "template.all"@ {
        "All"@
    } else if key == "template.empty_title"@ {
        "No Templates"@
    } else if key == "template.empty_desc"@ {
        "No templates available in this category"@
    } else if key == "category.file_ops"@ {
        "File Ops"@
    } else if key == "category.network"@ {
        "Network"@
    } else if key == "category.custom"@ {
        "Custom"@
    } else if key == "settings.title"@ {
        "Settings"@
    } else if key == "settings.language"@ {
        "Language"@
    } else if key == "settings.language_desc"@ {
        "Choose the display language"@
    } else if key == "settings.shell_config"@ {
        "Shell Configuration"@
    } else if key == "settings.shell_type"@ {
        "Shell Type"@
    } else if key == "settings.shell_type_desc"@ {
        "Select the shell config file to manage"@
    } else if key == "settings.custom_path"@ {
        "Custom Config Path"@
    } else if key == "settings.custom_path_desc"@ {
        "Leave empty to use default path"@
    } else if key == "settings.custom_path_placeholder"@ {
        "e.g. /home/user/.custom_bashrc"@
    } else if key == "settings.save"@ {
        "Save"@
    } else if key == "settings.data_management"@ {
        "Data Management"@
    } else if key == "settings.auto_refresh"@ {
        "Auto Refresh"@
    } else if key == "settings.auto_refresh_desc"@ {
        "Auto-refresh alias list when config file changes"@
    } else if key == "settings.instant_apply"@ {
        "Instant Apply"@
    } else if key == "settings.instant_apply_desc"@ {
        "Run `source` on the config file after changes. Only affects terminals opened after or started by this app."@
    } else if key == "template.import_skipped"@ {
        "Imported {} new, skipped {} existing"@
    } else if key == "template.custom_new"@ {
        "Create custom template"@
    } else if key == "template.custom_name"@ {
        "Name"@
    } else if key == "template.custom_command"@ {
        "Command"@
    } else if key == "template.custom_desc"@ {
        "Description"@
    } else if key == "template.custom_save"@ {
        "Save"@
    } else if key == "template.custom_required"@ {
        "Name and command are required"@
    } else if key == "template.delete"@ {
        "Delete"@
    } else if key == "tag.filter_all"@ {
        "All tags"@
    } else if key == "tag.click_to_filter"@ {
        "Click to filter by this tag"@
    } else if key == "settings.manual_refresh"@ {
        "Manual Refresh"@
    } else if key == "settings.manual_refresh_desc"@ {
        "Re-read config file now"@
    } else if key == "settings.refresh_btn"@ {
        "Refresh"@
    } else if key == "settings.about"@ {
        "About"@
    } else if key == "settings.about_desc"@ {
        "A Shell alias manager built with Tauri v2 + Leptos 0.8"@
    } else if key == "settings.about_support"@ {
        "Supports Bash, Zsh, Fish config file management"@
    } else if key == "settings.shell_updated"@ {
        "Shell type updated"@
    } else if key == "settings.path_updated"@ {
        "Config path updated"@
    } else if key == "settings.language_updated"@ {
        "Language updated"@
    } else if key == "update.check_btn"@ {
        "Check for Updates"@
    } else if key == "update.checking"@ {
        "Checking..."@
    } else if key == "update.latest_version"@ {
        "Latest version"@
    } else if key == "update.download_latest"@ {
        "Download Latest"@
    } else if key == "update.up_to_date"@ {
        "You're up to date"@
    } else if key == "update.network_error"@ {
        "Failed to check for updates. Please check your network connection."@
    } else if key == "error.io_error"@ {
        "I/O error: {}"@
    } else if key == "error.parse_error"@ {
        "Failed to parse config file: {}"@
    } else if key == "error.config_not_found"@ {
        "Config file not found: {}"@
    } else if key == "error.alias_exists"@ {
        "Alias \"{}\" already exists"@
    } else if key == "error.alias_conflict"@ {
        "Alias \"{}\" already exists"@
    } else if key == "error.alias_not_found"@ {
        "Alias \"{}\" not found"@
    } else if key == "error.invalid_alias_name"@ {
        "Invalid alias name: {}"@
    } else if key == "error.json_error"@ {
        "JSON error: {}"@
    } else if key == "error.network_error"@ {
        "Network error: {}"@
    } else if key == "error.rate_limited"@ {
        "GitHub API rate limited, please try again later"@
    } else if key == "error.release_not_found"@ {
        "No releases found for this repository"@
    } else if key == "settings.backups"@ {
        "Backups"@
    } else if key == "settings.backups_desc"@ {
        "A backup is created automatically before every change. Restoring a backup overwrites the current config file."@
    } else if key == "settings.backup_time"@ {
        "Time"@
    } else if key == "settings.backup_path"@ {
        "File"@
    } else if key == "settings.backup_size"@ {
        "Size"@
    } else if key == "settings.backup_restore"@ {
        "Restore"@
    } else if key == "settings.backup_restore_confirm"@ {
        "Restore this backup? The current config file will be overwritten."@
    } else if key == "settings.backup_restored"@ {
        "Backup restored"@
    } else if key == "settings.backup_empty"@ {
        "No backups yet"@
    } else if key == "settings.backup_refresh"@ {
        "Refresh"@
    } else if key == "config_viewer.title"@ {
        "Config File"@
    } else if key == "config_viewer.loading"@ {
        "Loading..."@
    } else if key == "config_viewer.empty"@ {
        "Config file is empty"@
    } else if key == "config_viewer.close"@ {
        "Close"@
    } else {
        "[missing]"@
    }
}

/// The Chinese text of a key; the English one for a key without Chinese text.
pub open spec fn zh_text(key: Seq<char>) -> Seq<char> {
    if key == "app.title"@ {
        "别名管理器"@
    } else if key == "page.not_found"@ {
        "页面未找到"@
    } else if key == "nav.aliases"@ {
        "别名管理"@
    } else if key == "nav.templates"@ {
        "模板库"@
    } else if key == "nav.settings"@ {
        "设置"@
    } else if key == "theme.light"@ {
        "浅色模式"@
    } else if key == "theme.dark"@ {
        "暗色模式"@
    } else if key == "search.placeholder"@ {
        "搜索别名..."@
    } else if key == "alias.import"@ {
        "导入"@
    } else if key == "alias.export"@ {
        "导出"@
    } else if key == "alias.add_btn"@ {
        "+ 添加别名"@
    } else if key == "alias.import_file"@ {
        "从文件导入"@
    } else if key == "alias.import_partial"@ {
        "导入了 {} 个别名，失败: {}"@
    } else if key == "alias.import_preview_title"@ {
        "导入预览"@
    } else if key == "alias.import_preview_summary"@ {
        "新增：{} · 可覆盖：{} · 无变化：{} · 无效：{}"@
    } else if key == "alias.import_status_new"@ {
        "新增"@
    } else if key == "alias.import_status_conflict"@ {
        "已存在"@
    } else if key == "alias.import_status_unchanged"@ {
        "无变化"@
    } else if key == "alias.import_status_invalid"@ {
        "无效"@
    } else if key == "alias.import_overwrite_col"@ {
        "覆盖"@
    } else if key == "alias.import_confirm"@ {
        "导入"@
    } else if key == "alias.import_dedup_note"@ {
        "文件中 {} 条重复条目已合并（以最后一条为准）"@
    } else if key == "alias.import_overwrite_all"@ {
        "全部覆盖"@
    } else if key == "alias.view_config"@ {
        "查看配置"@
    } else if key == "alias.conflict_title"@ {
        "别名冲突"@
    } else if key == "alias.conflict_msg"@ {
        "别名「{}」已存在，是否覆盖？"@
    } else if key == "alias.conflict_overwrite"@ {
        "覆盖"@
    } else if key == "alias.conflict_keep"@ {
        "保留原值"@
    } else if key == "alias.json_parse_error"@ {
        "JSON 解析失败: {}"@
    } else if key == "alias.delete_partial"@ {
        "部分删除失败: {}"@
    } else if key == "alias.delete_success"@ {
        "已删除 {} 个别名"@
    } else if key == "alias.import_success"@ {
        "已导入 {} 个别名"@
    } else if key == "alias.count"@ {
        "共 {} 个别名"@
    } else if key == "alias.count_filtered"@ {
        "找到 {} / {} 个别名"@
    } else if key == "alias.delete_selected"@ {
        "删除选中 ({})"@
    } else if key == "alias.select_all"@ {
        "全选"@
    } else if key == "alias.empty_title"@ {
        "还没有别名"@
    } else if key == "alias.empty_desc"@ {
        "点击右上角的「添加别名」按钮创建你的第一个别名"@
    } else if key == "alias.search_empty_title"@ {
        "没有找到匹配的别名"@
    } else if key == "alias.search_empty_desc"@ {
        "没有与「{}」匹配的别名"@
    } else if key == "alias.edit"@ {
        "编辑"@
    } else if key == "alias.delete"@ {
        "删除"@
    } else if key == "form.edit_title"@ {
        "编辑别名"@
    } else if key == "form.add_title"@ {
        "添加别名"@
    } else if key == "form.name_label"@ {
        "别名名称"@
    } else if key == "form.name_placeholder"@ {
        "例如: gs"@
    } else if key == "form.name_hint"@ {
        "只能包含字母、数字、下划线和连字符"@
    } else if key == "form.command_label"@ {
        "命令"@
    } else if key == "form.command_placeholder"@ {
        "例如: git status"@
    } else if key == "form.tags_label"@ {
        "标签"@
    } else if key == "form.tags_placeholder"@ {
        "例如: git, 快捷命令（逗号分隔）"@
    } else if key == "form.tags_hint"@ {
        "用逗号分隔多个标签"@
    } else if key == "form.cancel"@ {
        "取消"@
    } else if key == "form.save"@ {
        "保存"@
    } else if key == "form.add"@ {
        "添加"@
    } else if key == "validate.name_empty"@ {
        "别名名称不能为空"@
    } else if key == "validate.name_hyphen"@ {
        "别名名称不能以连字符开头"@
    } else if key == "validate.name_chars"@ {
        "别名名称只能包含字母、数字、下划线和连字符"@
    } else if key == "validate.command_empty"@ {
        "命令不能为空"@
    } else if key == "template.title"@ {
        "模板库"@
    } else if key == "template.import_selected"@ {
        "导入选中"@
    } else if key == "template.import_success"@ {
        "成功导入 {} 个别名"@
    } else if key == "template.all"@ {
        "全部"@
    } else if key == "template.empty_title"@ {
        "没有模板"@
    } else if key == "template.empty_desc"@ {
        "该分类下没有可用的模板"@
    } else if key == "category.file_ops"@ {
        "文件操作"@
    } else if key == "category.network"@ {
        "网络"@
    } else if key == "category.custom"@ {
        "自定义"@
    } else if key == "settings.title"@ {
        "设置"@
    } else if key == "settings.language"@ {
        "语言"@
    } else if key == "settings.language_desc"@ {
        "选择界面显示语言"@
    } else if key == "settings.shell_config"@ {
        "Shell 配置"@
    } else if key == "settings.shell_type"@ {
        "Shell 类型"@
    } else if key == "settings.shell_type_desc"@ {
        "选择你要管理的 Shell 配置文件"@
    } else if key == "settings.custom_path"@ {
        "自定义配置路径"@
    } else if key == "settings.custom_path_desc"@ {
        "留空则使用默认路径"@
    } else if key == "settings.custom_path_placeholder"@ {
        "例如: /home/user/.custom_bashrc"@
    } else if key == "settings.save"@ {
        "保存"@
    } else if key == "settings.data_management"@ {
        "数据管理"@
    } else if key == "settings.auto_refresh"@ {
        "自动刷新"@
    } else if key == "settings.auto_refresh_desc"@ {
        "配置文件变更时自动刷新别名列表"@
    } else if key == "settings.instant_apply"@ {
        "即时生效"@
    } else if key == "settings.instant_apply_desc"@ {
        "变更后自动对配置文件执行 source。仅对之后新开或由本应用启动的终端生效。"@
    } else if key == "template.import_skipped"@ {
        "新增 {} 个，跳过已存在 {} 个"@
    } else if key == "template.custom_new"@ {
        "新建自定义模板"@
    } else if key == "template.custom_name"@ {
        "名称"@
    } else if key == "template.custom_command"@ {
        "命令"@
    } else if key == "template.custom_desc"@ {
        "描述"@
    } else if key == "template.custom_save"@ {
        "保存"@
    } else if key == "template.custom_required"@ {
        "名称和命令不能为空"@
    } else if key == "template.delete"@ {
        "删除"@
    } else if key == "tag.filter_all"@ {
        "全部标签"@
    } else if key == "tag.click_to_filter"@ {
        "点击按此标签筛选"@
    } else if key == "settings.manual_refresh"@ {
        "手动刷新"@
    } else if key == "settings.manual_refresh_desc"@ {
        "立即重新读取配置文件"@
    } else if key == "settings.refresh_btn"@ {
        "刷新"@
    } else if key == "settings.about"@ {
        "关于"@
    } else if key == "settings.about_desc"@ {
        "基于 Tauri v2 + Leptos 0.8 构建的 Shell 别名管理器"@
    } else if key == "settings.about_support"@ {
        "支持 Bash、Zsh、Fish 配置文件管理"@
    } else if key == "settings.shell_updated"@ {
        "Shell 类型已更新"@
    } else if key == "settings.path_updated"@ {
        "配置路径已更新"@
    } else if key == "settings.language_updated"@ {
        "语言已更新"@
    } else if key == "update.check_btn"@ {
        "检查更新"@
    } else if key == "update.checking"@ {
        "检查中..."@
    } else if key == "update.latest_version"@ {
        "最新版本"@
    } else if key == "update.download_latest"@ {
        "下载最新版本"@
    } else if key == "update.up_to_date"@ {
        "当前已是最新版本"@
    } else if key == "update.network_error"@ {
        "检查更新失败，请检查网络连接。"@
    } else if key == "error.io_error"@ {
        "I/O 错误：{}"@
    } else if key == "error.parse_error"@ {
        "配置文件解析失败：{}"@
    } else if key == "error.config_not_found"@ {
        "配置文件未找到：{}"@
    } else if key == "error.alias_exists"@ {
        "别名「{}」已存在"@
    } else if key == "error.alias_conflict"@ {
        "别名「{}」已存在"@
    } else if key == "error.alias_not_found"@ {
        "别名「{}」未找到"@
    } else if key == "error.invalid_alias_name"@ {
        "非法别名名称：{}"@
    } else if key == "error.json_error"@ {
        "JSON 错误：{}"@
    } else if key == "error.network_error"@ {
        "网络错误：{}"@
    } else if key == "error.rate_limited"@ {
        "请求过于频繁，请稍后再试"@
    } else if key == "error.release_not_found"@ {
        "未找到仓库的发布版本"@
    } else if key == "settings.backups"@ {
        "备份管理"@
    } else if key == "settings.backups_desc"@ {
        "每次修改配置文件前都会自动创建备份，恢复备份将覆盖当前配置文件。"@
    } else if key == "settings.backup_time"@ {
        "时间"@
    } else if key == "settings.backup_path"@ {
        "文件"@
    } else if key == "settings.backup_size"@ {
        "大小"@
    } else if key == "settings.backup_restore"@ {
        "恢复"@
    } else if key == "settings.backup_restore_confirm"@ {
        "确定恢复该备份？当前配置文件将被覆盖。"@
    } else if key == "settings.backup_restored"@ {
        "已恢复备份"@
    } else if key == "settings.backup_empty"@ {
        "暂无备份"@
    } else if key == "settings.backup_refresh"@ {
        "刷新"@
    } else if key == "config_viewer.title"@ {
        "配置文件"@
    } else if key == "config_viewer.loading"@ {
        "加载中..."@
    } else if key == "config_viewer.empty"@ {
        "配置文件为空"@
    } else if key == "config_viewer.close"@ {
        "关闭"@
    } else {
        en_text(key)
    }
}

/// The text of a key in a language.
pub open spec fn translation(locale: Locale, key: Seq<char>) -> Seq<char> {
    match locale {
        Locale::En => en_text(key),
        Locale::Zh => zh_text(key),
    }
}

/// The English text of a key (`[missing]` for an unknown key).
#[verifier::rlimit(50)]
pub fn en(key: &str) -> (r: &'static str)
    ensures
        r@ == en_text(key@),
{
    let k = chars_of(key);
    if lit_is(&k, "app.title") {
        "Alias Manager"
    } else if lit_is(&k, "page.not_found") {
        "Page not found"
    } else if lit_is(&k, "nav.aliases") {
        "Aliases"
    } else if lit_is(&k, "nav.templates") {
        "Templates"
    } else if lit_is(&k, "nav.settings") {
        "Settings"
    } else if lit_is(&k, "theme.light") {
        "Light Mode"
    } else if lit_is(&k, "theme.dark") {
        "Dark Mode"
    } else if lit_is(&k, "search.placeholder") {
        "Search aliases..."
    } else if lit_is(&k, "alias.import") {
        "Import"
    } else if lit_is(&k, "alias.export") {
        "Export"
    } else if lit_is(&k, "alias.add_btn") {
        "+ Add Alias"
    } else if lit_is(&k, "alias.import_file") {
        "Import from File"
    } else if lit_is(&k, "alias.import_partial") {
        "Imported {} aliases, failed: {}"
    } else if lit_is(&k, "alias.import_preview_title") {
        "Import Preview"
    } else if lit_is(&k, "alias.import_preview_summary") {
        "New: {} · Overwritable: {} · Unchanged: {} · Invalid: {}"
    } else if lit_is(&k, "alias.import_status_new") {
        "New"
    } else if lit_is(&k, "alias.import_status_conflict") {
        "Exists"
    } else if lit_is(&k, "alias.import_status_unchanged") {
        "Unchanged"
    } else if lit_is(&k, "alias.import_status_invalid") {
        "Invalid"
    } else if lit_is(&k, "alias.import_overwrite_col") {
        "Overwrite"
    } else if lit_is(&k, "alias.import_confirm") {
        "Import"
    } else if lit_is(&k, "alias.import_dedup_note") {
        "{} duplicate entries in the file were merged (last occurrence wins)"
    } else if lit_is(&k, "alias.import_overwrite_all") {
        "Overwrite All"
    } else if lit_is(&k, "alias.view_config") {
        "View Config"
    } else if lit_is(&k, "alias.conflict_title") {
        "Alias Conflict"
    } else if lit_is(&k, "alias.conflict_msg") {
        "Alias \"{}\" already exists. Overwrite it?"
    } else if lit_is(&k, "alias.conflict_overwrite") {
        "Overwrite"
    } else if lit_is(&k, "alias.conflict_keep") {
        "Keep Existing"
    } else if lit_is(&k, "alias.json_parse_error") {
        "JSON parse failed: {}"
    } else if lit_is(&k, "alias.delete_partial") {
        "Some deletions failed: {}"
    } else if lit_is(&k, "alias.delete_success") {
        "Deleted {} aliases"
    } else if lit_is(&k, "alias.import_success") {
        "Imported {} aliases"
    } else if lit_is(&k, "alias.count") {
        "{} aliases total"
    } else if lit_is(&k, "alias.count_filtered") {
        "Found {} / {} aliases"
    } else if lit_is(&k, "alias.delete_selected") {
        "Delete Selected ({})"
    } else if lit_is(&k, "alias.select_all") {
        "Select All"
    } else if lit_is(&k, "alias.empty_title") {
        "No aliases yet"
    } else if lit_is(&k, "alias.empty_desc") {
        "Click the \"+ Add Alias\" button to create your first alias"
    } else if lit_is(&k, "alias.search_empty_title") {
        "No matching aliases"
    } else if lit_is(&k, "alias.search_empty_desc") {
        "No aliases matching \"{}\""
    } else if lit_is(&k, "alias.edit") {
        "Edit"
    } else if lit_is(&k, "alias.delete") {
        "Delete"
    } else if lit_is(&k, "form.edit_title") {
        "Edit Alias"
    } else if lit_is(&k, "form.add_title") {
        "Add Alias"
    } else if lit_is(&k, "form.name_label") {
        "Alias Name"
    } else if lit_is(&k, "form.name_placeholder") {
        "e.g. gs"
    } else if lit_is(&k, "form.name_hint") {
        "Only letters, numbers, underscores, and hyphens"
    } else if lit_is(&k, "form.command_label") {
        "Command"
    } else if lit_is(&k, "form.command_placeholder") {
        "e.g. git status"
    } else if lit_is(&k, "form.tags_label") {
        "Tags"
    } else if lit_is(&k, "form.tags_placeholder") {
        "e.g. git, shortcut (comma separated)"
    } else if lit_is(&k, "form.tags_hint") {
        "Separate multiple tags with commas"
    } else if lit_is(&k, "form.cancel") {
        "Cancel"
    } else if lit_is(&k, "form.save") {
        "Save"
    } else if lit_is(&k, "form.add") {
        "Add"
    } else if lit_is(&k, "validate.name_empty") {
        "Alias name cannot be empty"
    } else if lit_is(&k, "validate.name_hyphen") {
        "Alias name cannot start with a hyphen"
    } else if lit_is(&k, "validate.name_chars") {
        "Alias name can only contain letters, numbers, underscores, and hyphens"
    } else if lit_is(&k, "validate.command_empty") {
        "Command cannot be empty"
    } else if lit_is(&k, "template.title") {
        "Templates"
    } else if lit_is(&k, "template.import_selected") {
        "Import Selected"
    } else if lit_is(&k, "template.import_success") {
        "Successfully imported {} aliases"
    } else if lit_is(&k, "template.all") {
        "All"
    } else if lit_is(&k, "template.empty_title") {
        "No Templates"
    } else if lit_is(&k, "template.empty_desc") {
        "No templates available in this category"
    } else if lit_is(&k, "category.file_ops") {
        "File Ops"
    } else if lit_is(&k, "category.network") {
        "Network"
    } else if lit_is(&k, "category.custom") {
        "Custom"
    } else if lit_is(&k, "settings.title") {
        "Settings"
    } else if lit_is(&k, "settings.language") {
        "Language"
    } else if lit_is(&k, "settings.language_desc") {
        "Choose the display language"
    } else if lit_is(&k, "settings.shell_config") {
        "Shell Configuration"
    } else if lit_is(&k, "settings.shell_type") {
        "Shell Type"
    } else if lit_is(&k, "settings.shell_type_desc") {
        "Select the shell config file to manage"
    } else if lit_is(&k, "settings.custom_path") {
        "Custom Config Path"
    } else if lit_is(&k, "settings.custom_path_desc") {
        "Leave empty to use default path"
    } else if lit_is(&k, "settings.custom_path_placeholder") {
        "e.g. /home/user/.custom_bashrc"
    } else if lit_is(&k, "settings.save") {
        "Save"
    } else if lit_is(&k, "settings.data_management") {
        "Data Management"
    } else if lit_is(&k, "settings.auto_refresh") {
        "Auto Refresh"
    } else if lit_is(&k, "settings.auto_refresh_desc") {
        "Auto-refresh alias list when config file changes"
    } else if lit_is(&k, "settings.instant_apply") {
        "Instant Apply"
    } else if lit_is(&k, "settings.instant_apply_desc") {
        "Run `source` on the config file after changes. Only affects terminals opened after or started by this app."
    } else if lit_is(&k, "template.import_skipped") {
        "Imported {} new, skipped {} existing"
    } else if lit_is(&k, "template.custom_new") {
        "Create custom template"
    } else if lit_is(&k, "template.custom_name") {
        "Name"
    } else if lit_is(&k, "template.custom_command") {
        "Command"
    } else if lit_is(&k, "template.custom_desc") {
        "Description"
    } else if lit_is(&k, "template.custom_save") {
        "Save"
    } else if lit_is(&k, "template.custom_required") {
        "Name and command are required"
    } else if lit_is(&k, "template.delete") {
        "Delete"
    } else if lit_is(&k, "tag.filter_all") {
        "All tags"
    } else if lit_is(&k, "tag.click_to_filter") {
        "Click to filter by this tag"
    } else if lit_is(&k, "settings.manual_refresh") {
        "Manual Refresh"
    } else if lit_is(&k, "settings.manual_refresh_desc") {
        "Re-read config file now"
    } else if lit_is(&k, "settings.refresh_btn") {
        "Refresh"
    } else if lit_is(&k, "settings.about") {
        "About"
    } else if lit_is(&k, "settings.about_desc") {
        "A Shell alias manager built with Tauri v2 + Leptos 0.8"
    } else if lit_is(&k, "settings.about_support") {
        "Supports Bash, Zsh, Fish config file management"
    } else if lit_is(&k, "settings.shell_updated") {
        "Shell type updated"
    } else if lit_is(&k, "settings.path_updated") {
        "Config path updated"
    } else if lit_is(&k, "settings.language_updated") {
        "Language updated"
    } else if lit_is(&k, "update.check_btn") {
        "Check for Updates"
    } else if lit_is(&k, "update.checking") {
        "Checking..."
    } else if lit_is(&k, "update.latest_version") {
        "Latest version"
    } else if lit_is(&k, "update.download_latest") {
        "Download Latest"
    } else if lit_is(&k, "update.up_to_date") {
        "You're up to date"
    } else if lit_is(&k, "update.network_error") {
        "Failed to check for updates. Please check your network connection."
    } else if lit_is(&k, "error.io_error") {
        "I/O error: {}"
    } else if lit_is(&k, "error.parse_error") {
        "Failed to parse config file: {}"
    } else if lit_is(&k, "error.config_not_found") {
        "Config file not found: {}"
    } else if lit_is(&k, "error.alias_exists") {
        "Alias \"{}\" already exists"
    } else if lit_is(&k, "error.alias_conflict") {
        "Alias \"{}\" already exists"
    } else if lit_is(&k, "error.alias_not_found") {
        "Alias \"{}\" not found"
    } else if lit_is(&k, "error.invalid_alias_name") {
        "Invalid alias name: {}"
    } else if lit_is(&k, "error.json_error") {
        "JSON error: {}"
    } else if lit_is(&k, "error.network_error") {
        "Network error: {}"
    } else if lit_is(&k, "error.rate_limited") {
        "GitHub API rate limited, please try again later"
    } else if lit_is(&k, "error.release_not_found") {
        "No releases found for this repository"
    } else if lit_is(&k, "settings.backups") {
        "Backups"
    } else if lit_is(&k, "settings.backups_desc") {
        "A backup is created automatically before every change. Restoring a backup overwrites the current config file."
    } else if lit_is(&k, "settings.backup_time") {
        "Time"
    } else if lit_is(&k, "settings.backup_path") {
        "File"
    } else if lit_is(&k, "settings.backup_size") {
        "Size"
    } else if lit_is(&k, "settings.backup_restore") {
        "Restore"
    } else if lit_is(&k, "settings.backup_restore_confirm") {
        "Restore this backup? The current config file will be overwritten."
    } else if lit_is(&k, "settings.backup_restored") {
        "Backup restored"
    } else if lit_is(&k, "settings.backup_empty") {
        "No backups yet"
    } else if lit_is(&k, "settings.backup_refresh") {
        "Refresh"
    } else if lit_is(&k, "config_viewer.title") {
        "Config File"
    } else if lit_is(&k, "config_viewer.loading") {
        "Loading..."
    } else if lit_is(&k, "config_viewer.empty") {
        "Config file is empty"
    } else if lit_is(&k, "config_viewer.close") {
        "Close"
    } else {
        "[missing]"
    }
}

/// The Chinese text of a key, falling back to the English one.
#[verifier::rlimit(50)]
pub fn zh(key: &str) -> (r: &'static str)
    ensures
        r@ == zh_text(key@),
{
    let k = chars_of(key);
    if lit_is(&k, "app.title") {
        "别名管理器"
    } else if lit_is(&k, "page.not_found") {
        "页面未找到"
    } else if lit_is(&k, "nav.aliases") {
        "别名管理"
    } else if lit_is(&k, "nav.templates") {
        "模板库"
    } else if lit_is(&k, "nav.settings") {
        "设置"
    } else if lit_is(&k, "theme.light") {
        "浅色模式"
    } else if lit_is(&k, "theme.dark") {
        "暗色模式"
    } else if lit_is(&k, "search.placeholder") {
        "搜索别名..."
    } else if lit_is(&k, "alias.import") {
        "导入"
    } else if lit_is(&k, "alias.export") {
        "导出"
    } else if lit_is(&k, "alias.add_btn") {
        "+ 添加别名"
    } else if lit_is(&k, "alias.import_file") {
        "从文件导入"
    } else if lit_is(&k, "alias.import_partial") {
        "导入了 {} 个别名，失败: {}"
    } else if lit_is(&k, "alias.import_preview_title") {
        "导入预览"
    } else if lit_is(&k, "alias.import_preview_summary") {
        "新增：{} · 可覆盖：{} · 无变化：{} · 无效：{}"
    } else if lit_is(&k, "alias.import_status_new") {
        "新增"
    } else if lit_is(&k, "alias.import_status_conflict") {
        "已存在"
    } else if lit_is(&k, "alias.import_status_unchanged") {
        "无变化"
    } else if lit_is(&k, "alias.import_status_invalid") {
        "无效"
    } else if lit_is(&k, "alias.import_overwrite_col") {
        "覆盖"
    } else if lit_is(&k, "alias.import_confirm") {
        "导入"
    } else if lit_is(&k, "alias.import_dedup_note") {
        "文件中 {} 条重复条目已合并（以最后一条为准）"
    } else if lit_is(&k, "alias.import_overwrite_all") {
        "全部覆盖"
    } else if lit_is(&k, "alias.view_config") {
        "查看配置"
    } else if lit_is(&k, "alias.conflict_title") {
        "别名冲突"
    } else if lit_is(&k, "alias.conflict_msg") {
        "别名「{}」已存在，是否覆盖？"
    } else if lit_is(&k, "alias.conflict_overwrite") {
        "覆盖"
    } else if lit_is(&k, "alias.conflict_keep") {
        "保留原值"
    } else if lit_is(&k, "alias.json_parse_error") {
        "JSON 解析失败: {}"
    } else if lit_is(&k, "alias.delete_partial") {
        "部分删除失败: {}"
    } else if lit_is(&k, "alias.delete_success") {
        "已删除 {} 个别名"
    } else if lit_is(&k, "alias.import_success") {
        "已导入 {} 个别名"
    } else if lit_is(&k, "alias.count") {
        "共 {} 个别名"
    } else if lit_is(&k, "alias.count_filtered") {
        "找到 {} / {} 个别名"
    } else if lit_is(&k, "alias.delete_selected") {
        "删除选中 ({})"
    } else if lit_is(&k, "alias.select_all") {
        "全选"
    } else if lit_is(&k, "alias.empty_title") {
        "还没有别名"
    } else if lit_is(&k, "alias.empty_desc") {
        "点击右上角的「添加别名」按钮创建你的第一个别名"
    } else if lit_is(&k, "alias.search_empty_title") {
        "没有找到匹配的别名"
    } else if lit_is(&k, "alias.search_empty_desc") {
        "没有与「{}」匹配的别名"
    } else if lit_is(&k, "alias.edit") {
        "编辑"
    } else if lit_is(&k, "alias.delete") {
        "删除"
    } else if lit_is(&k, "form.edit_title") {
        "编辑别名"
    } else if lit_is(&k, "form.add_title") {
        "添加别名"
    } else if lit_is(&k, "form.name_label") {
        "别名名称"
    } else if lit_is(&k, "form.name_placeholder") {
        "例如: gs"
    } else if lit_is(&k, "form.name_hint") {
        "只能包含字母、数字、下划线和连字符"
    } else if lit_is(&k, "form.command_label") {
        "命令"
    } else if lit_is(&k, "form.command_placeholder") {
        "例如: git status"
    } else if lit_is(&k, "form.tags_label") {
        "标签"
    } else if lit_is(&k, "form.tags_placeholder") {
        "例如: git, 快捷命令（逗号分隔）"
    } else if lit_is(&k, "form.tags_hint") {
        "用逗号分隔多个标签"
    } else if lit_is(&k, "form.cancel") {
        "取消"
    } else if lit_is(&k, "form.save") {
        "保存"
    } else if lit_is(&k, "form.add") {
        "添加"
    } else if lit_is(&k, "validate.name_empty") {
        "别名名称不能为空"
    } else if lit_is(&k, "validate.name_hyphen") {
        "别名名称不能以连字符开头"
    } else if lit_is(&k, "validate.name_chars") {
        "别名名称只能包含字母、数字、下划线和连字符"
    } else if lit_is(&k, "validate.command_empty") {
        "命令不能为空"
    } else if lit_is(&k, "template.title") {
        "模板库"
    } else if lit_is(&k, "template.import_selected") {
        "导入选中"
    } else if lit_is(&k, "template.import_success") {
        "成功导入 {} 个别名"
    } else if lit_is(&k, "template.all") {
        "全部"
    } else if lit_is(&k, "template.empty_title") {
        "没有模板"
    } else if lit_is(&k, "template.empty_desc") {
        "该分类下没有可用的模板"
    } else if lit_is(&k, "category.file_ops") {
        "文件操作"
    } else if lit_is(&k, "category.network") {
        "网络"
    } else if lit_is(&k, "category.custom") {
        "自定义"
    } else if lit_is(&k, "settings.title") {
        "设置"
    } else if lit_is(&k, "settings.language") {
        "语言"
    } else if lit_is(&k, "settings.language_desc") {
        "选择界面显示语言"
    } else if lit_is(&k, "settings.shell_config") {
        "Shell 配置"
    } else if lit_is(&k, "settings.shell_type") {
        "Shell 类型"
    } else if lit_is(&k, "settings.shell_type_desc") {
        "选择你要管理的 Shell 配置文件"
    } else if lit_is(&k, "settings.custom_path") {
        "自定义配置路径"
    } else if lit_is(&k, "settings.custom_path_desc") {
        "留空则使用默认路径"
    } else if lit_is(&k, "settings.custom_path_placeholder") {
        "例如: /home/user/.custom_bashrc"
    } else if lit_is(&k, "settings.save") {
        "保存"
    } else if lit_is(&k, "settings.data_management") {
        "数据管理"
    } else if lit_is(&k, "settings.auto_refresh") {
        "自动刷新"
    } else if lit_is(&k, "settings.auto_refresh_desc") {
        "配置文件变更时自动刷新别名列表"
    } else if lit_is(&k, "settings.instant_apply") {
        "即时生效"
    } else if lit_is(&k, "settings.instant_apply_desc") {
        "变更后自动对配置文件执行 source。仅对之后新开或由本应用启动的终端生效。"
    } else if lit_is(&k, "template.import_skipped") {
        "新增 {} 个，跳过已存在 {} 个"
    } else if lit_is(&k, "template.custom_new") {
        "新建自定义模板"
    } else if lit_is(&k, "template.custom_name") {
        "名称"
    } else if lit_is(&k, "template.custom_command") {
        "命令"
    } else if lit_is(&k, "template.custom_desc") {
        "描述"
    } else if lit_is(&k, "template.custom_save") {
        "保存"
    } else if lit_is(&k, "template.custom_required") {
        "名称和命令不能为空"
    } else if lit_is(&k, "template.delete") {
        "删除"
    } else if lit_is(&k, "tag.filter_all") {
        "全部标签"
    } else if lit_is(&k, "tag.click_to_filter") {
        "点击按此标签筛选"
    } else if lit_is(&k, "settings.manual_refresh") {
        "手动刷新"
    } else if lit_is(&k, "settings.manual_refresh_desc") {
        "立即重新读取配置文件"
    } else if lit_is(&k, "settings.refresh_btn") {
        "刷新"
    } else if lit_is(&k, "settings.about") {
        "关于"
    } else if lit_is(&k, "settings.about_desc") {
        "基于 Tauri v2 + Leptos 0.8 构建的 Shell 别名管理器"
    } else if lit_is(&k, "settings.about_support") {
        "支持 Bash、Zsh、Fish 配置文件管理"
    } else if lit_is(&k, "settings.shell_updated") {
        "Shell 类型已更新"
    } else if lit_is(&k, "settings.path_updated") {
        "配置路径已更新"
    } else if lit_is(&k, "settings.language_updated") {
        "语言已更新"
    } else if lit_is(&k, "update.check_btn") {
        "检查更新"
    } else if lit_is(&k, "update.checking") {
        "检查中..."
    } else if lit_is(&k, "update.latest_version") {
        "最新版本"
    } else if lit_is(&k, "update.download_latest") {
        "下载最新版本"
    } else if lit_is(&k, "update.up_to_date") {
        "当前已是最新版本"
    } else if lit_is(&k, "update.network_error") {
        "检查更新失败，请检查网络连接。"
    } else if lit_is(&k, "error.io_error") {
        "I/O 错误：{}"
    } else if lit_is(&k, "error.parse_error") {
        "配置文件解析失败：{}"
    } else if lit_is(&k, "error.config_not_found") {
        "配置文件未找到：{}"
    } else if lit_is(&k, "error.alias_exists") {
        "别名「{}」已存在"
    } else if lit_is(&k, "error.alias_conflict") {
        "别名「{}」已存在"
    } else if lit_is(&k, "error.alias_not_found") {
        "别名「{}」未找到"
    } else if lit_is(&k, "error.invalid_alias_name") {
        "非法别名名称：{}"
    } else if lit_is(&k, "error.json_error") {
        "JSON 错误：{}"
    } else if lit_is(&k, "error.network_error") {
        "网络错误：{}"
    } else if lit_is(&k, "error.rate_limited") {
        "请求过于频繁，请稍后再试"
    } else if lit_is(&k, "error.release_not_found") {
        "未找到仓库的发布版本"
    } else if lit_is(&k, "settings.backups") {
        "备份管理"
    } else if lit_is(&k, "settings.backups_desc") {
        "每次修改配置文件前都会自动创建备份，恢复备份将覆盖当前配置文件。"
    } else if lit_is(&k, "settings.backup_time") {
        "时间"
    } else if lit_is(&k, "settings.backup_path") {
        "文件"
    } else if lit_is(&k, "settings.backup_size") {
        "大小"
    } else if lit_is(&k, "settings.backup_restore") {
        "恢复"
    } else if lit_is(&k, "settings.backup_restore_confirm") {
        "确定恢复该备份？当前配置文件将被覆盖。"
    } else if lit_is(&k, "settings.backup_restored") {
        "已恢复备份"
    } else if lit_is(&k, "settings.backup_empty") {
        "暂无备份"
    } else if lit_is(&k, "settings.backup_refresh") {
        "刷新"
    } else if lit_is(&k, "config_viewer.title") {
        "配置文件"
    } else if lit_is(&k, "config_viewer.loading") {
        "加载中..."
    } else if lit_is(&k, "config_viewer.empty") {
        "配置文件为空"
    } else if lit_is(&k, "config_viewer.close") {
        "关闭"
    } else {
        en(key)
    }
}

/// The text of a key in a language.
pub fn translate(locale: Locale, key: &str) -> (r: String)
    ensures
        r@ == translation(locale, key@),
{
    let t = match locale {
        Locale::En => en(key),
        Locale::Zh => zh(key),
    };
    String::from_str(t)
}

} // verus!
