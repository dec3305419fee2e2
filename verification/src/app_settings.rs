//! Application settings: the shell, an optional custom configuration path and
//! the auto-refresh switch.
use vstd::prelude::*;

use crate::error::AppError;
use crate::paths::{join, join_path};
use crate::shell_type::{config_path_under, shell_of_name, ShellType};
use crate::text::unicode_lowercase;

verus! {

/// Application settings.
#[derive(Debug, Clone)]
pub struct AppSettings {
    /// The shell whose configuration is managed.
    pub shell_type: ShellType,
    /// A configuration file path that overrides the shell's default one.
    pub custom_config_path: Option<String>,
    /// Whether the alias list is refreshed when the configuration file changes.
    pub auto_refresh: bool,
}

/// The value of `auto_refresh` when the stored settings lack it: on.
pub fn default_auto_refresh() -> (r: bool)
    ensures
        r,
{
    true
}

impl AppSettings {
    /// The default settings for a shell: no custom path, auto-refresh on.
    pub fn default_for(shell_type: ShellType) -> (r: AppSettings)
        ensures
            r.shell_type == shell_type,
            r.custom_config_path is None,
            r.auto_refresh,
    {
        AppSettings { shell_type, custom_config_path: None, auto_refresh: true }
    }
}

/// The configuration file in effect under home directory `home`: the custom
/// path when one is set, the shell's default file otherwise.
pub open spec fn effective_path(
    shell: ShellType,
    custom: Option<Seq<char>>,
    home: Seq<char>,
) -> Seq<char> {
    match custom {
        Some(p) => p,
        None => config_path_under(shell, home),
    }
}

/// The optional custom path of settings, as a sequence.
pub open spec fn custom_view(s: AppSettings) -> Option<Seq<char>> {
    match s.custom_config_path {
        Some(p) => Some(p@),
        None => None,
    }
}

/// Settings persistence and the paths derived from settings.
pub struct AppSettingsManager;

impl AppSettingsManager {
    /// The settings file in the application data directory.
    pub fn settings_path(app_data_dir: &str) -> (r: String)
        ensures
            r@ == join_path(app_data_dir@, "settings.json"@),
    {
        join(app_data_dir, "settings.json")
    }

    /// The configuration file in effect under home directory `home`.
    pub fn effective_config_path_in(settings: &AppSettings, home: &str) -> (r: String)
        ensures
            r@ == effective_path(settings.shell_type, custom_view(*settings), home@),
    {
        match &settings.custom_config_path {
            Some(p) => p.clone(),
            None => settings.shell_type.config_path_in(home),
        }
    }

    /// The configuration file in effect: the custom path when one is set,
    /// otherwise the shell's default file under the user's home directory.
    pub fn effective_config_path(settings: &AppSettings) -> (r: String)
        ensures
            exists|home: Seq<char>|
                r@ == effective_path(settings.shell_type, custom_view(*settings), home),
    {
        match &settings.custom_config_path {
            Some(p) => {
                let r = p.clone();
                assert(r@ == effective_path(settings.shell_type, custom_view(*settings), r@));
                r
            },
            None => {
                let r = settings.shell_type.config_path();
                proof {
                    let h = choose|h: Seq<char>| r@ == config_path_under(settings.shell_type, h);
                    assert(r@ == effective_path(settings.shell_type, custom_view(*settings), h));
                }
                r
            },
        }
    }

    /// Settings with the given changes applied: a new shell (named without
    /// regard to case), a new custom path (the empty string clears it) and a
    /// new auto-refresh switch; an unknown shell name is a `ParseError`.
    pub fn apply_update(
        settings: AppSettings,
        shell_type: Option<&str>,
        custom_config_path: Option<String>,
        auto_refresh: Option<bool>,
    ) -> (r: Result<AppSettings, AppError>)
        ensures
            match shell_type {
                Some(st) => match shell_of_name(unicode_lowercase(st@)) {
                    None => r matches Err(e) && (e matches AppError::ParseError(m) && m@
                        == "未知 Shell 类型: "@ + st@),
                    Some(t) => r matches Ok(s) && s.shell_type == t,
                },
                None => r matches Ok(s) && s.shell_type == settings.shell_type,
            },
            r matches Ok(s) ==> {
                &&& custom_view(s) == match custom_config_path {
                    Some(p) => if p@.len() == 0 {
                        None
                    } else {
                        Some(p@)
                    },
                    None => custom_view(settings),
                }
                &&& s.auto_refresh == match auto_refresh {
                    Some(b) => b,
                    None => settings.auto_refresh,
                }
            },
    {
        let mut s = settings;
        match shell_type {
            Some(st) => match ShellType::parse(st) {
                Ok(t) => {
                    s.shell_type = t;
                },
                Err(e) => {
                    return Err(AppError::ParseError(e));
                },
            },
            None => {},
        }
        match custom_config_path {
            Some(cp) => {
                if cp.as_str().is_empty() {
                    s.custom_config_path = None;
                } else {
                    s.custom_config_path = Some(cp);
                }
            },
            None => {},
        }
        match auto_refresh {
            Some(ar) => {
                s.auto_refresh = ar;
            },
            None => {},
        }
        Ok(s)
    }
}

impl AppSettings {
    /// A copy of these settings.
    pub fn duplicate(&self) -> (r: AppSettings)
        ensures
            r.shell_type == self.shell_type,
            custom_view(r) == custom_view(*self),
            r.auto_refresh == self.auto_refresh,
    {
        AppSettings {
            shell_type: self.shell_type,
            custom_config_path: match &self.custom_config_path {
                Some(p) => Some(p.clone()),
                None => None,
            },
            auto_refresh: self.auto_refresh,
        }
    }
}

/// The mathematical value of settings.
pub open spec fn settings_view(s: AppSettings) -> (ShellType, Option<Seq<char>>, bool) {
    (s.shell_type, custom_view(s), s.auto_refresh)
}

/// The settings kept in memory so that commands need not read the settings
/// file each time.
pub struct SettingsCache {
    cached: Option<AppSettings>,
}

impl SettingsCache {
    /// What the cache holds.
    pub closed spec fn contents(&self) -> Option<(ShellType, Option<Seq<char>>, bool)> {
        match self.cached {
            Some(s) => Some(settings_view(s)),
            None => None,
        }
    }

    /// An empty cache.
    pub fn new() -> (r: SettingsCache)
        ensures
            r.contents() is None,
    {
        SettingsCache { cached: None }
    }

    /// The cached settings, if any: a copy of what was last stored.
    pub fn get(&self) -> (r: Option<AppSettings>)
        ensures
            match r {
                Some(s) => self.contents() == Some(settings_view(s)),
                None => self.contents() is None,
            },
    {
        match &self.cached {
            Some(s) => Some(s.duplicate()),
            None => None,
        }
    }

    /// Keeps a copy of `settings`.
    pub fn store(&mut self, settings: &AppSettings)
        ensures
            final(self).contents() == Some(settings_view(*settings)),
    {
        self.cached = Some(settings.duplicate());
    }

    /// Forgets the cached settings, so that the next read loads them again.
    pub fn invalidate(&mut self)
        ensures
            final(self).contents() is None,
    {
        self.cached = None;
    }
}

/// Reading the cache after settings were stored gives them back: `cache` is
/// the cache as `store` leaves it, `read` what `get` then returns.
pub proof fn lemma_cache_read_after_store(
    cache: SettingsCache,
    stored: AppSettings,
    read: Option<AppSettings>,
)
    requires
        cache.contents() == Some(settings_view(stored)),
        match read {
            Some(s) => cache.contents() == Some(settings_view(s)),
            None => cache.contents() is None,
        },
    ensures
        read matches Some(s) && settings_view(s) == settings_view(stored),
{
}

/// Reading the cache after it was invalidated gives nothing, so the
/// settings are loaded again: `cache` is the cache as `invalidate` leaves
/// it, `read` what `get` then returns.
pub proof fn lemma_cache_read_after_invalidate(cache: SettingsCache, read: Option<AppSettings>)
    requires
        cache.contents() is None,
        match read {
            Some(s) => cache.contents() == Some(settings_view(s)),
            None => cache.contents() is None,
        },
    ensures
        read is None,
{
}

} // verus!
