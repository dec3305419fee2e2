//! The decisions of the backend commands, apart from the file and network
//! work around them: the conflict check before adding an alias, the
//! category filter and the selection of templates to import, the import
//! summary, which file-system events concern the configuration file, and
//! the text of the update dialog.
use vstd::prelude::*;

use crate::alias::{alias_views, string_views, clone_strings, Alias, AliasView};
use crate::alias_parser::{find_alias_named, index_named, lemma_index_named};
use crate::app_settings::{custom_view, AppSettings};
use crate::error::{concat2, error_message, AppError};
use crate::paths::{file_name, path_file_name};
use crate::shell_config::BatchOutcome;
use crate::template::{category_key, template_views, Template, TemplateCategory, TemplateView};
use crate::text::{chars_eq, chars_of, to_lowercase, unicode_lowercase};
use crate::update_checker::UpdateInfo;

verus! {

/// The alias to add, unless one of that name is already configured: that is
/// an `AliasConflict`, which the interface answers with "overwrite or
/// cancel". Missing tags are no tags.
pub fn prepare_new_alias(
    existing: &[Alias],
    name: String,
    command: String,
    tags: Option<Vec<String>>,
) -> (r: Result<Alias, AppError>)
    ensures
        match index_named(alias_views(existing@), name@) {
            Some(_) => r matches Err(AppError::AliasConflict(n)) && n@ == name@,
            None => r matches Ok(a) && a.name@ == name@ && a.command@ == command@ && a.tags@ == (
            match tags {
                Some(t) => t@,
                None => Seq::empty(),
            }),
        },
{
    let n = chars_of(name.as_str());
    if find_alias_named(existing, &n).is_some() {
        return Err(AppError::AliasConflict(name));
    }
    let tags = match tags {
        Some(t) => t,
        None => Vec::new(),
    };
    Ok(Alias { name, command, tags })
}

/// The category with a lowercase key.
pub open spec fn category_of_key(s: Seq<char>) -> Option<TemplateCategory> {
    if s == "git"@ {
        Some(TemplateCategory::Git)
    } else if s == "docker"@ {
        Some(TemplateCategory::Docker)
    } else if s == "fileops"@ {
        Some(TemplateCategory::FileOps)
    } else if s == "network"@ {
        Some(TemplateCategory::Network)
    } else if s == "custom"@ {
        Some(TemplateCategory::Custom)
    } else {
        None
    }
}

/// The category whose key is `s`.
pub fn category_keyed(s: &[char]) -> (r: Option<TemplateCategory>)
    ensures
        r == category_of_key(s@),
{
    if chars_eq(s, &chars_of("git")) {
        Some(TemplateCategory::Git)
    } else if chars_eq(s, &chars_of("docker")) {
        Some(TemplateCategory::Docker)
    } else if chars_eq(s, &chars_of("fileops")) {
        Some(TemplateCategory::FileOps)
    } else if chars_eq(s, &chars_of("network")) {
        Some(TemplateCategory::Network)
    } else if chars_eq(s, &chars_of("custom")) {
        Some(TemplateCategory::Custom)
    } else {
        None
    }
}

/// The templates of a category, in order.
pub open spec fn in_category(v: Seq<TemplateView>, c: TemplateCategory) -> Seq<TemplateView>
    decreases v.len(),
{
    if v.len() == 0 {
        Seq::empty()
    } else if v.last().category == c {
        in_category(v.drop_last(), c).push(v.last())
    } else {
        in_category(v.drop_last(), c)
    }
}

/// The templates listed for an optional category name: all of them without a
/// name or with a name (compared in lower case) that is no category,
/// otherwise those of the category.
pub open spec fn listed_templates(v: Seq<TemplateView>, category: Option<Seq<char>>) -> Seq<
    TemplateView,
> {
    match category {
        None => v,
        Some(name) => match category_of_key(unicode_lowercase(name)) {
            None => v,
            Some(c) => in_category(v, c),
        },
    }
}

/// `in_category` keeps exactly the templates of `v` in category `c`.
proof fn lemma_in_category(v: Seq<TemplateView>, c: TemplateCategory)
    ensures
        forall|x: TemplateView| #[trigger]
            in_category(v, c).contains(x) <==> (v.contains(x) && x.category == c),
    decreases v.len(),
{
    if v.len() > 0 {
        let init = v.drop_last();
        lemma_in_category(init, c);
        let m0 = in_category(init, c);
        let m = in_category(v, c);
        assert forall|x: TemplateView| #[trigger]
            m.contains(x) <==> (v.contains(x) && x.category == c) by {
            if m.contains(x) {
                let k = choose|k: int| 0 <= k < m.len() && m[k] == x;
                if v.last().category == c && k == m.len() - 1 {
                    assert(v[v.len() - 1] == x);
                } else {
                    assert(m0[k] == x);
                    assert(m0.contains(x));
                    let j = choose|j: int| 0 <= j < init.len() && init[j] == x;
                    assert(v[j] == x);
                }
            }
            if v.contains(x) && x.category == c {
                let j = choose|j: int| 0 <= j < v.len() && v[j] == x;
                if j == v.len() - 1 {
                    assert(m[m.len() - 1] == x);
                } else {
                    assert(init[j] == x);
                    assert(m0.contains(x));
                    let k = choose|k: int| 0 <= k < m0.len() && m0[k] == x;
                    if v.last().category == c {
                        assert(m[k] == x);
                    } else {
                        assert(m[k] == x);
                    }
                }
            }
        }
    }
}

/// The category law: the key of every category names that category and no
/// other text does, and listing by a name whose lowercase form is the key of
/// a category lists exactly the templates of that category.
pub proof fn lemma_category_listing(v: Seq<TemplateView>, name: Seq<char>, c: TemplateCategory)
    ensures
        category_of_key(category_key(c)) == Some(c),
        forall|s: Seq<char>| #[trigger] category_of_key(s) == Some(c) ==> s == category_key(c),
        unicode_lowercase(name) == category_key(c) ==> forall|x: TemplateView| #[trigger]
            listed_templates(v, Some(name)).contains(x) <==> (v.contains(x) && x.category == c),
{
    reveal_strlit("git");
    reveal_strlit("docker");
    reveal_strlit("fileops");
    reveal_strlit("network");
    reveal_strlit("custom");
    assert("git"@.len() == 3 && "docker"@.len() == 6 && "fileops"@.len() == 7);
    assert("network"@.len() == 7 && "custom"@.len() == 6);
    assert("docker"@[0] != "custom"@[0]);
    assert("fileops"@[0] != "network"@[0]);
    lemma_in_category(v, c);
}

/// The templates listed for an optional category name.
pub fn filter_templates(templates: Vec<Template>, category: Option<String>) -> (r: Vec<Template>)
    ensures
        template_views(r@) == listed_templates(
            template_views(templates@),
            match category {
                Some(c) => Some(c@),
                None => None,
            },
        ),
{
    let target = match &category {
        None => {
            return templates;
        },
        Some(name) => {
            let lower = to_lowercase(name.as_str());
            match category_keyed(&chars_of(lower.as_str())) {
                None => {
                    return templates;
                },
                Some(c) => c,
            }
        },
    };
    let ghost v = template_views(templates@);
    let mut out: Vec<Template> = Vec::new();
    let mut i: usize = 0;
    while i < templates.len()
        invariant
            i <= templates@.len(),
            v == template_views(templates@),
            template_views(out@) == in_category(v.take(i as int), target),
        decreases templates@.len() - i,
    {
        proof {
            assert(v.take(i + 1).drop_last() =~= v.take(i as int));
            assert(v.take(i + 1).last() == v[i as int]);
        }
        let ghost o0 = template_views(out@);
        if templates[i].category == target {
            out.push(templates[i].duplicate());
            assert(template_views(out@) =~= o0.push(v[i as int]));
        }
        i = i + 1;
    }
    assert(v.take(templates@.len() as int) =~= v);
    out
}

/// Whether `n` is one of `names`.
pub fn name_listed(names: &[String], n: &[char]) -> (r: bool)
    ensures
        r == string_views(names@).contains(n@),
{
    let mut i: usize = 0;
    while i < names.len()
        invariant
            i <= names@.len(),
            forall|j: int| 0 <= j < i ==> string_views(names@)[j] != n@,
        decreases names@.len() - i,
    {
        if chars_eq(&chars_of(names[i].as_str()), n) {
            assert(string_views(names@)[i as int] == n@);
            return true;
        }
        i = i + 1;
    }
    false
}

/// The alias that a template stands for.
pub open spec fn template_alias(t: TemplateView) -> AliasView {
    AliasView { name: t.name, command: t.command, tags: t.tags }
}

/// The aliases of the templates whose names are listed, in template order.
pub open spec fn selected_aliases(v: Seq<TemplateView>, names: Seq<Seq<char>>) -> Seq<AliasView>
    decreases v.len(),
{
    if v.len() == 0 {
        Seq::empty()
    } else if names.contains(v.last().name) {
        selected_aliases(v.drop_last(), names).push(template_alias(v.last()))
    } else {
        selected_aliases(v.drop_last(), names)
    }
}

/// The template selection law: an alias is imported exactly when it is the
/// alias (name, command, tags) of a template whose name was chosen.
pub proof fn lemma_selected_templates(v: Seq<TemplateView>, names: Seq<Seq<char>>)
    ensures
        forall|a: AliasView| #[trigger]
            selected_aliases(v, names).contains(a) <==> exists|i: int|
                0 <= i < v.len() && names.contains(v[i].name) && a == template_alias(
                    #[trigger] v[i],
                ),
    decreases v.len(),
{
    if v.len() > 0 {
        let init = v.drop_last();
        lemma_selected_templates(init, names);
        let m0 = selected_aliases(init, names);
        let m = selected_aliases(v, names);
        let last = v.last();
        assert forall|a: AliasView| #[trigger]
            m.contains(a) <==> exists|i: int|
                0 <= i < v.len() && names.contains(v[i].name) && a == template_alias(
                    #[trigger] v[i],
                ) by {
            if m.contains(a) {
                let k = choose|k: int| 0 <= k < m.len() && m[k] == a;
                if names.contains(last.name) && k == m.len() - 1 {
                    assert(v[v.len() - 1] == last);
                } else {
                    assert(m0[k] == a);
                    assert(m0.contains(a));
                    let i = choose|i: int|
                        0 <= i < init.len() && names.contains(init[i].name) && a == template_alias(
                            #[trigger] init[i],
                        );
                    assert(v[i] == init[i]);
                }
            }
            if exists|i: int|
                0 <= i < v.len() && names.contains(v[i].name) && a == template_alias(
                    #[trigger] v[i],
                ) {
                let i = choose|i: int|
                    0 <= i < v.len() && names.contains(v[i].name) && a == template_alias(
                        #[trigger] v[i],
                    );
                if i == v.len() - 1 {
                    assert(m[m.len() - 1] == a);
                } else {
                    assert(init[i] == v[i]);
                    assert(m0.contains(a));
                    let k = choose|k: int| 0 <= k < m0.len() && m0[k] == a;
                    assert(m[k] == a);
                }
            }
        }
    }
}

/// The aliases to import for the chosen template names, in template order.
pub fn select_templates(templates: &[Template], names: &[String]) -> (r: Vec<Alias>)
    ensures
        alias_views(r@) == selected_aliases(template_views(templates@), string_views(names@)),
{
    let ghost v = template_views(templates@);
    let mut out: Vec<Alias> = Vec::new();
    let mut i: usize = 0;
    while i < templates.len()
        invariant
            i <= templates@.len(),
            v == template_views(templates@),
            alias_views(out@) == selected_aliases(v.take(i as int), string_views(names@)),
        decreases templates@.len() - i,
    {
        proof {
            assert(v.take(i + 1).drop_last() =~= v.take(i as int));
            assert(v.take(i + 1).last() == v[i as int]);
        }
        let ghost o0 = alias_views(out@);
        let t = &templates[i];
        if name_listed(names, &chars_of(t.name.as_str())) {
            let a = Alias {
                name: t.name.clone(),
                command: t.command.clone(),
                tags: clone_strings(&t.tags),
            };
            out.push(a);
            assert(alias_views(out@) =~= o0.push(template_alias(v[i as int])));
        }
        i = i + 1;
    }
    assert(v.take(templates@.len() as int) =~= v);
    out
}

/// The result of importing templates.
#[derive(Debug, Clone, Copy, PartialEq, Eq, Structural)]
pub struct ImportResult {
    /// How many templates were imported.
    pub imported: usize,
    /// How many were skipped because the alias already exists.
    pub skipped: usize,
}

/// The import summary of a batch add.
pub fn import_result(outcome: &BatchOutcome) -> (r: ImportResult)
    ensures
        r.imported == outcome.success_count,
        r.skipped == outcome.skipped_count,
{
    ImportResult { imported: outcome.success_count, skipped: outcome.skipped_count }
}

/// Whether a changed path is the configuration file: the same path, or the
/// same final component.
pub open spec fn names_target(p: Seq<char>, target: Seq<char>) -> bool {
    p == target || file_name(p) == file_name(target)
}

/// Whether a file-system event concerns the configuration file: it writes,
/// creates or removes, and one of its paths names the file.
pub open spec fn concerns_config(is_write: bool, paths: Seq<Seq<char>>, target: Seq<char>) -> bool {
    is_write && exists|i: int| 0 <= i < paths.len() && names_target(#[trigger] paths[i], target)
}

/// The watch law: an event that does not change files never concerns the
/// configuration file; a change on the file's own path, or on any path with
/// the same final component, does; and nothing else does.
pub proof fn lemma_config_event_law(is_write: bool, paths: Seq<Seq<char>>, target: Seq<char>)
    ensures
        !is_write ==> !concerns_config(is_write, paths, target),
        is_write && paths.contains(target) ==> concerns_config(is_write, paths, target),
        concerns_config(is_write, paths, target) <==> (is_write && exists|i: int|
            0 <= i < paths.len() && (paths[i] == target || file_name(#[trigger] paths[i])
                == file_name(target))),
{
    if is_write && paths.contains(target) {
        let i = choose|i: int| 0 <= i < paths.len() && paths[i] == target;
        assert(names_target(paths[i], target));
    }
}

/// Whether a file-system event concerns the configuration file: it is a
/// write, creation or removal, and one of its paths is the file or has its
/// final component. Paths are compared as text.
pub fn is_config_event(is_write: bool, paths: &[String], target: &str) -> (r: bool)
    ensures
        r == concerns_config(is_write, string_views(paths@), target@),
{
    if !is_write {
        return false;
    }
    let t = chars_of(target);
    let tn = path_file_name(target);
    let ghost pv = string_views(paths@);
    let mut i: usize = 0;
    while i < paths.len()
        invariant
            is_write,
            i <= paths@.len(),
            pv == string_views(paths@),
            t@ == target@,
            match tn {
                Some(n) => file_name(target@) == Some(n@),
                None => file_name(target@) is None,
            },
            forall|j: int| 0 <= j < i ==> !names_target(#[trigger] pv[j], target@),
        decreases paths@.len() - i,
    {
        let p = paths[i].as_str();
        let same_path = chars_eq(&chars_of(p), &t);
        let pn = path_file_name(p);
        let same_name = match (&pn, &tn) {
            (Some(a), Some(b)) => chars_eq(&chars_of(a.as_str()), &chars_of(b.as_str())),
            (None, None) => true,
            _ => false,
        };
        if same_path || same_name {
            assert(names_target(pv[i as int], target@));
            return true;
        }
        i = i + 1;
    }
    false
}

/// Whether the interface is told that the configuration file changed: the
/// event concerns it and auto-refresh is on.
pub fn should_announce_change(
    is_write: bool,
    paths: &[String],
    target: &str,
    auto_refresh: bool,
) -> (r: bool)
    ensures
        r == (auto_refresh && concerns_config(is_write, string_views(paths@), target@)),
{
    is_config_event(is_write, paths, target) && auto_refresh
}

/// Whether new settings move the configuration file, so that the watcher
/// must be restarted: the custom path changed.
pub fn watcher_needs_restart(previous: &AppSettings, next: &AppSettings) -> (r: bool)
    ensures
        r == (custom_view(*previous) != custom_view(*next)),
{
    match (&previous.custom_config_path, &next.custom_config_path) {
        (Some(a), Some(b)) => !chars_eq(&chars_of(a.as_str()), &chars_of(b.as_str())),
        (None, None) => false,
        _ => true,
    }
}

/// What the "check for updates" menu shows: a title, a message, and the
/// release page to offer for download when there is a newer version.
#[derive(Debug)]
pub struct UpdateDialog {
    pub title: String,
    pub message: String,
    pub download_url: Option<String>,
}

/// The dialog title in Chinese or English.
pub open spec fn dialog_title(is_zh: bool) -> Seq<char> {
    if is_zh {
        "检查更新"@
    } else {
        "Check for Updates"@
    }
}

/// The dialog message for a finished check.
pub open spec fn dialog_message(is_zh: bool, has_update: bool, latest: Seq<char>) -> Seq<char> {
    if has_update {
        if is_zh {
            "发现新版本！\n\n最新版本: v"@ + latest + "\n\n是否前往下载？"@
        } else {
            "A new version is available!\n\nLatest version: v"@ + latest + "\n\nDownload now?"@
        }
    } else if is_zh {
        "当前已是最新版本\n\n最新版本: v"@ + latest
    } else {
        "You're up to date\n\nLatest version: v"@ + latest
    }
}

/// The dialog message for a failed check, given the error's text.
pub open spec fn dialog_failure(is_zh: bool, reason: Seq<char>) -> Seq<char> {
    if is_zh {
        "检查更新失败\n\n"@ + reason
    } else {
        "Failed to check for updates\n\n"@ + reason
    }
}

/// The dialog for the outcome of an update check, in Chinese or English:
/// a newer version is announced with an offer to open its release page, an
/// up-to-date check says so, and a failed check shows the error.
pub fn update_dialog(is_zh: bool, result: &Result<UpdateInfo, AppError>) -> (r: UpdateDialog)
    ensures
        r.title@ == dialog_title(is_zh),
        match result {
            Ok(info) => {
                &&& r.message@ == dialog_message(is_zh, info.has_update, info.latest_version@)
                &&& match r.download_url {
                    Some(u) => info.has_update && u@ == info.release_url@,
                    None => !info.has_update,
                }
            },
            Err(e) => {
                &&& r.download_url is None
                &&& (match *e {
                    AppError::IoError(_) => exists|t: Seq<char>|
                        r.message@ == dialog_failure(is_zh, "I/O error: "@ + t),
                    AppError::JsonError(_) => exists|t: Seq<char>|
                        r.message@ == dialog_failure(is_zh, "JSON error: "@ + t),
                    _ => r.message@ == dialog_failure(is_zh, error_message(*e)),
                })
            },
        },
{
    let title = if is_zh {
        String::from_str("检查更新")
    } else {
        String::from_str("Check for Updates")
    };
    match result {
        Ok(info) => {
            let latest = info.latest_version.as_str();
            if info.has_update {
                let message = if is_zh {
                    crate::error::concat3("发现新版本！\n\n最新版本: v", latest, "\n\n是否前往下载？")
                } else {
                    crate::error::concat3(
                        "A new version is available!\n\nLatest version: v",
                        latest,
                        "\n\nDownload now?",
                    )
                };
                UpdateDialog { title, message, download_url: Some(info.release_url.clone()) }
            } else {
                let message = if is_zh {
                    concat2("当前已是最新版本\n\n最新版本: v", latest)
                } else {
                    concat2("You're up to date\n\nLatest version: v", latest)
                };
                UpdateDialog { title, message, download_url: None }
            }
        },
        Err(e) => {
            let reason = e.message();
            let message = if is_zh {
                concat2("检查更新失败\n\n", reason.as_str())
            } else {
                concat2("Failed to check for updates\n\n", reason.as_str())
            };
            proof {
                match *e {
                    AppError::IoError(_) => {
                        let t = choose|t: Seq<char>| reason@ == "I/O error: "@ + t;
                        assert(message@ == dialog_failure(is_zh, "I/O error: "@ + t));
                    },
                    AppError::JsonError(_) => {
                        let t = choose|t: Seq<char>| reason@ == "JSON error: "@ + t;
                        assert(message@ == dialog_failure(is_zh, "JSON error: "@ + t));
                    },
                    _ => {},
                }
            }
            UpdateDialog { title, message, download_url: None }
        },
    }
}

} // verus!
