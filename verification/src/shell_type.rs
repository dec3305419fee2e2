//! The supported shells, their configuration files and their names.
use vstd::prelude::*;

use crate::error::concat2;
use crate::paths::{file_name, file_name_chars, join, join_path};
use crate::text::{chars_of, chars_eq, to_lowercase, unicode_lowercase};

verus! {

/// A supported shell.
#[derive(Debug, Clone, Copy, PartialEq, Eq, Structural)]
pub enum ShellType {
    /// Bourne Again Shell (bash).
    Bash,
    /// Z Shell (zsh).
    Zsh,
    /// Friendly Interactive Shell (fish).
    Fish,
}

/// The user's home directory, as `dirs::home_dir` finds it, converted to a
/// string. Which directory it is depends on the environment and is not
/// claimed. On Unix, `dirs::home_dir` takes `HOME`, or else the home field of
/// the user's passwd entry, and skips either when it is empty, so a directory
/// it returns is never empty; converting it keeps it non-empty. The clause
/// rests on that Unix code: on other targets `dirs` asks other sources, for
/// which it is not shown.
#[verifier::external_body]
fn home_dir() -> (r: Option<String>)
    ensures
        r matches Some(h) ==> h@.len() > 0,
{
    match dirs::home_dir() {
        Some(p) => Some(p.to_string_lossy().into_owned()),
        None => None,
    }
}

/// The home directory, or `/` when none is found: either way a non-empty
/// directory text.
fn home_or_root_dir() -> (r: String)
    ensures
        r@.len() > 0,
{
    match home_dir() {
        Some(s) => s,
        None => {
            proof {
                reveal_strlit("/");
            }
            String::from_str("/")
        },
    }
}

/// The configuration file of a shell under home directory `home`:
/// `.bashrc`, `.zshrc` or `.config/fish/config.fish`.
pub open spec fn config_path_under(shell: ShellType, home: Seq<char>) -> Seq<char> {
    match shell {
        ShellType::Bash => join_path(home, ".bashrc"@),
        ShellType::Zsh => join_path(home, ".zshrc"@),
        ShellType::Fish => join_path(
            join_path(join_path(home, ".config"@), "fish"@),
            "config.fish"@,
        ),
    }
}

/// The lowercase name of a shell.
pub open spec fn shell_name(shell: ShellType) -> Seq<char> {
    match shell {
        ShellType::Bash => "bash"@,
        ShellType::Zsh => "zsh"@,
        ShellType::Fish => "fish"@,
    }
}

/// The shell whose lowercase name is `s`, if any.
pub open spec fn shell_of_name(s: Seq<char>) -> Option<ShellType> {
    if s == "bash"@ {
        Some(ShellType::Bash)
    } else if s == "zsh"@ {
        Some(ShellType::Zsh)
    } else if s == "fish"@ {
        Some(ShellType::Fish)
    } else {
        None
    }
}

/// The shell named by the final component of a shell path; bash when the
/// path is missing or names another shell.
pub open spec fn shell_from_path(path: Option<Seq<char>>) -> ShellType {
    match path {
        None => ShellType::Bash,
        Some(p) => match file_name(p) {
            Some(n) => match shell_of_name(n) {
                Some(s) => s,
                None => ShellType::Bash,
            },
            None => ShellType::Bash,
        },
    }
}

/// The shell-name law: each shell's name names that shell and no other
/// text names it; a shell path whose final component is a shell's name
/// gives that shell, and anything else gives bash.
pub proof fn lemma_shell_names(t: ShellType, p: Option<Seq<char>>)
    ensures
        shell_of_name(shell_name(t)) == Some(t),
        forall|s: Seq<char>| #[trigger] shell_of_name(s) == Some(t) ==> s == shell_name(t),
        shell_from_path(p) == match p {
            Some(q) => match file_name(q) {
                Some(n) => if n == "zsh"@ {
                    ShellType::Zsh
                } else if n == "fish"@ {
                    ShellType::Fish
                } else {
                    ShellType::Bash
                },
                None => ShellType::Bash,
            },
            None => ShellType::Bash,
        },
{
    reveal_strlit("bash");
    reveal_strlit("zsh");
    reveal_strlit("fish");
    assert("bash"@.len() == 4 && "zsh"@.len() == 3 && "fish"@.len() == 4);
    assert("bash"@[0] != "fish"@[0]);
}

/// The shell whose lowercase name is `s`.
pub fn shell_named(s: &[char]) -> (r: Option<ShellType>)
    ensures
        r == shell_of_name(s@),
{
    let bash = chars_of("bash");
    let zsh = chars_of("zsh");
    let fish = chars_of("fish");
    if chars_eq(s, &bash) {
        Some(ShellType::Bash)
    } else if chars_eq(s, &zsh) {
        Some(ShellType::Zsh)
    } else if chars_eq(s, &fish) {
        Some(ShellType::Fish)
    } else {
        None
    }
}

impl ShellType {
    /// The configuration file of this shell under the home directory `home`.
    pub fn config_path_in(&self, home: &str) -> (r: String)
        ensures
            r@ == config_path_under(*self, home@),
    {
        match self {
            ShellType::Bash => join(home, ".bashrc"),
            ShellType::Zsh => join(home, ".zshrc"),
            ShellType::Fish => {
                let c = join(home, ".config");
                let f = join(c.as_str(), "fish");
                join(f.as_str(), "config.fish")
            },
        }
    }

    /// The configuration file of this shell: `~/.bashrc`, `~/.zshrc` or
    /// `~/.config/fish/config.fish`, with `/` as home when none is found; the
    /// home part is never empty.
    pub fn config_path(&self) -> (r: String)
        ensures
            exists|home: Seq<char>| home.len() > 0 && r@ == config_path_under(*self, home),
    {
        let home = home_or_root_dir();
        let r = self.config_path_in(home.as_str());
        assert(r@ == config_path_under(*self, home@));
        r
    }

    /// The shell named by a `SHELL` value (the final component of the path):
    /// `zsh`, `fish` or `bash`; bash when there is no value or it names another
    /// shell.
    pub fn from_shell_path(shell: Option<&str>) -> (r: ShellType)
        ensures
            r == shell_from_path(
                match shell {
                    Some(s) => Some(s@),
                    None => None,
                },
            ),
    {
        match shell {
            None => ShellType::Bash,
            Some(p) => match file_name_chars(&chars_of(p)) {
                Some(n) => match shell_named(&n) {
                    Some(s) => s,
                    None => ShellType::Bash,
                },
                None => ShellType::Bash,
            },
        }
    }

    /// The display label: `Bash`, `Zsh` or `Fish`.
    pub fn label(&self) -> (r: &'static str)
        ensures
            r@ == match *self {
                ShellType::Bash => "Bash"@,
                ShellType::Zsh => "Zsh"@,
                ShellType::Fish => "Fish"@,
            },
    {
        match self {
            ShellType::Bash => "Bash",
            ShellType::Zsh => "Zsh",
            ShellType::Fish => "Fish",
        }
    }

    /// All shells, in the order bash, zsh, fish.
    pub fn all() -> (r: Vec<ShellType>)
        ensures
            r@ == seq![ShellType::Bash, ShellType::Zsh, ShellType::Fish],
    {
        let r = vec![ShellType::Bash, ShellType::Zsh, ShellType::Fish];
        assert(r@ =~= seq![ShellType::Bash, ShellType::Zsh, ShellType::Fish]);
        r
    }

    /// The lowercase name (`bash`, `zsh`, `fish`), which is how the shell is
    /// displayed and serialised.
    pub fn as_str(&self) -> (r: &'static str)
        ensures
            r@ == shell_name(*self),
    {
        match self {
            ShellType::Bash => "bash",
            ShellType::Zsh => "zsh",
            ShellType::Fish => "fish",
        }
    }

    /// The displayed text of the shell: its lowercase name.
    pub fn display(&self) -> (r: String)
        ensures
            r@ == shell_name(*self),
    {
        String::from_str(self.as_str())
    }

    /// The shell named by `s`, compared without regard to case; an error
    /// message naming `s` otherwise.
    pub fn parse(s: &str) -> (r: Result<ShellType, String>)
        ensures
            match shell_of_name(unicode_lowercase(s@)) {
                Some(t) => r == Ok::<ShellType, String>(t),
                None => r matches Err(m) && m@ == "未知 Shell 类型: "@ + s@,
            },
    {
        let lower = to_lowercase(s);
        match shell_named(&chars_of(lower.as_str())) {
            Some(t) => Ok(t),
            None => Err(concat2("未知 Shell 类型: ", s)),
        }
    }
}

impl std::str::FromStr for ShellType {
    type Err = String;

    fn from_str(s: &str) -> (r: Result<Self, Self::Err>)
        ensures
            match shell_of_name(unicode_lowercase(s@)) {
                Some(t) => r == Ok::<ShellType, String>(t),
                None => r matches Err(m) && m@ == "未知 Shell 类型: "@ + s@,
            },
    {
        ShellType::parse(s)
    }
}

} // verus!
