//! The alias model: a short name standing for a longer command.
use vstd::prelude::*;

use crate::text::{char_is_alphanumeric, unicode_alphanumeric};

verus! {

/// One shell alias entry, such as `alias gs='git status'`.
#[derive(Debug, Clone, PartialEq)]
pub struct Alias {
    /// The alias name (such as `gs`).
    pub name: String,
    /// The command that the alias stands for (such as `git status`).
    pub command: String,
    /// Optional tags used for grouping and filtering.
    pub tags: Vec<String>,
}

/// The mathematical value of an [`Alias`].
#[verifier::ext_equal]
pub struct AliasView {
    pub name: Seq<char>,
    pub command: Seq<char>,
    pub tags: Seq<Seq<char>>,
}

/// The views of a sequence of strings.
pub open spec fn string_views(v: Seq<String>) -> Seq<Seq<char>> {
    v.map_values(|s: String| s@)
}

impl View for Alias {
    type V = AliasView;

    open spec fn view(&self) -> AliasView {
        AliasView { name: self.name@, command: self.command@, tags: string_views(self.tags@) }
    }
}

/// The views of a sequence of aliases.
pub open spec fn alias_views(v: Seq<Alias>) -> Seq<AliasView> {
    v.map_values(|a: Alias| a@)
}

/// A copy of a vector of strings.
pub fn clone_strings(v: &Vec<String>) -> (r: Vec<String>)
    ensures
        string_views(r@) == string_views(v@),
{
    let mut r: Vec<String> = Vec::new();
    let mut i: usize = 0;
    while i < v.len()
        invariant
            i <= v@.len(),
            string_views(r@) == string_views(v@).take(i as int),
        decreases v@.len() - i,
    {
        let ghost before = r@;
        let s = v[i].clone();
        assert(s@ == v@[i as int]@);
        r.push(s);
        assert(r@ == before.push(s));
        assert(string_views(before).len() == i);
        assert(before.len() == i);
        assert(r@.len() == i + 1);
        assert(string_views(r@).len() == i + 1);
        assert forall|j: int| 0 <= j <= i implies #[trigger] string_views(r@)[j] == string_views(
            v@,
        ).take(i + 1)[j] by {
            if j < i {
                assert(string_views(before)[j] == string_views(v@).take(i as int)[j]);
            }
        }
        i = i + 1;
        assert(string_views(r@) =~= string_views(v@).take(i as int));
    }
    assert(string_views(v@).take(v@.len() as int) =~= string_views(v@));
    r
}

/// Message for an empty alias name.
pub open spec fn msg_name_empty() -> Seq<char> {
    "别名名称不能为空"@
}

/// Message for an alias name that starts with a hyphen.
pub open spec fn msg_name_hyphen() -> Seq<char> {
    "别名名称不能以连字符开头"@
}

/// Message for an alias name with a character other than letters, digits,
/// `_` and `-`.
pub open spec fn msg_name_chars() -> Seq<char> {
    "别名名称只能包含字母数字、连字符和下划线"@
}

/// A character allowed in an alias name.
pub open spec fn is_name_char(c: char) -> bool {
    unicode_alphanumeric(c) || c == '_' || c == '-'
}

/// Every character of `name` is allowed in an alias name.
pub open spec fn all_name_chars(name: Seq<char>) -> bool {
    forall|i: int| 0 <= i < name.len() ==> is_name_char(#[trigger] name[i])
}

/// Which rule a name breaks first: empty, leading hyphen, other characters.
pub enum NameProblem {
    Empty,
    LeadingHyphen,
    BadChars,
}

/// The first rule that `name` breaks, or `None` for a valid name.
pub open spec fn name_problem(name: Seq<char>) -> Option<NameProblem> {
    if name.len() == 0 {
        Some(NameProblem::Empty)
    } else if name[0] == '-' {
        Some(NameProblem::LeadingHyphen)
    } else if !all_name_chars(name) {
        Some(NameProblem::BadChars)
    } else {
        None
    }
}

/// A valid alias name: non-empty, not starting with `-`, and made of letters,
/// digits, `_` and `-` only.
pub open spec fn valid_name(name: Seq<char>) -> bool {
    name_problem(name) is None
}

/// The message that `Alias::validate_name` gives for a rule.
pub open spec fn name_problem_message(p: NameProblem) -> Seq<char> {
    match p {
        NameProblem::Empty => msg_name_empty(),
        NameProblem::LeadingHyphen => msg_name_hyphen(),
        NameProblem::BadChars => msg_name_chars(),
    }
}

/// Whether every character of `name` is allowed in an alias name.
pub fn check_name_chars(name: &str) -> (r: bool)
    ensures
        r == all_name_chars(name@),
{
    let v = crate::text::chars_of(name);
    let mut i: usize = 0;
    while i < v.len()
        invariant
            v@ == name@,
            i <= v@.len(),
            forall|j: int| 0 <= j < i ==> is_name_char(#[trigger] v@[j]),
        decreases v@.len() - i,
    {
        let c = v[i];
        if !(char_is_alphanumeric(c) || c == '_' || c == '-') {
            return false;
        }
        i = i + 1;
    }
    true
}

/// The first rule that `name` breaks, if any.
pub fn find_name_problem(name: &str) -> (r: Option<NameProblem>)
    ensures
        r == name_problem(name@),
{
    let v = crate::text::chars_of(name);
    if v.len() == 0 {
        Some(NameProblem::Empty)
    } else if v[0] == '-' {
        Some(NameProblem::LeadingHyphen)
    } else if !check_name_chars(name) {
        Some(NameProblem::BadChars)
    } else {
        None
    }
}

impl Alias {
    /// A new alias with the given name and command and no tags.
    pub fn new(name: String, command: String) -> (r: Alias)
        ensures
            r.name@ == name@,
            r.command@ == command@,
            r.tags@.len() == 0,
    {
        Alias { name, command, tags: Vec::new() }
    }

    /// A new alias with tags.
    pub fn with_tags(name: String, command: String, tags: Vec<String>) -> (r: Alias)
        ensures
            r.name@ == name@,
            r.command@ == command@,
            r.tags@ == tags@,
    {
        Alias { name, command, tags }
    }

    /// A copy of this alias.
    pub fn duplicate(&self) -> (r: Alias)
        ensures
            r@ == self@,
    {
        Alias {
            name: self.name.clone(),
            command: self.command.clone(),
            tags: clone_strings(&self.tags),
        }
    }

    /// Checks an alias name. A valid name is non-empty, does not start with a
    /// hyphen, and holds only letters, digits, hyphens and underscores; the error
    /// names the first rule broken.
    pub fn validate_name(name: &str) -> (r: Result<(), String>)
        ensures
            match name_problem(name@) {
                None => r is Ok,
                Some(p) => r matches Err(m) && m@ == name_problem_message(p),
            },
    {
        match find_name_problem(name) {
            None => Ok(()),
            Some(NameProblem::Empty) => Err(String::from_str("别名名称不能为空")),
            Some(NameProblem::LeadingHyphen) => Err(String::from_str("别名名称不能以连字符开头")),
            Some(NameProblem::BadChars) => Err(
                String::from_str("别名名称只能包含字母数字、连字符和下划线"),
            ),
        }
    }
}

/// Whether two string lists are equal.
pub fn strings_equal(a: &Vec<String>, b: &Vec<String>) -> (r: bool)
    ensures
        r == (string_views(a@) == string_views(b@)),
{
    if a.len() != b.len() {
        return false;
    }
    let mut i: usize = 0;
    while i < a.len()
        invariant
            a@.len() == b@.len(),
            i <= a@.len(),
            forall|j: int| 0 <= j < i ==> a@[j]@ == b@[j]@,
        decreases a@.len() - i,
    {
        if a[i] != b[i] {
            assert(string_views(a@)[i as int] != string_views(b@)[i as int]);
            return false;
        }
        i = i + 1;
    }
    assert(string_views(a@) =~= string_views(b@));
    true
}

/// The naming law: a name is valid exactly when it is not empty, does not
/// start with `-`, and each of its characters is a letter or digit, `_` or
/// `-`; the first rule broken is reported: empty, then a leading hyphen, then
/// the characters.
pub proof fn lemma_name_rules(name: Seq<char>)
    ensures
        name_problem(name) is None <==> (name.len() > 0 && name[0] != '-' && forall|i: int|
            0 <= i < name.len() ==> unicode_alphanumeric(#[trigger] name[i]) || name[i] == '_'
                || name[i] == '-'),
        name.len() == 0 ==> name_problem(name) == Some(NameProblem::Empty),
        name.len() > 0 && name[0] == '-' ==> name_problem(name) == Some(NameProblem::LeadingHyphen),
        (name.len() > 0 && name[0] != '-' && exists|i: int|
            0 <= i < name.len() && !(unicode_alphanumeric(#[trigger] name[i]) || name[i] == '_'
                || name[i] == '-')) ==> name_problem(name) == Some(NameProblem::BadChars),
{
}

} // verus!
