//! Small display helpers shared by the views: tag colours and the alias name
//! check with localised messages.
use vstd::prelude::*;

use crate::alias::{find_name_problem, name_problem, NameProblem};
use crate::template::TemplateCategory;
use crate::ui::i18n::{translate, translation, Locale};

verus! {

/// The hash of a tag's UTF-8 bytes: starting at 5381, each byte is folded in
/// as `hash * 33 (mod 2^32) xor byte`.
pub open spec fn tag_hash(bytes: Seq<u8>) -> u32
    decreases bytes.len(),
{
    if bytes.len() == 0 {
        5381
    } else {
        (((tag_hash(bytes.drop_last()) as nat * 33) % 0x1_0000_0000) as u32) ^ (
        bytes.last() as u32)
    }
}

/// The colour classes, indexed by the tag hash modulo 6.
pub open spec fn color_class(i: u32) -> Seq<char> {
    if i == 0 {
        "tag--blue"@
    } else if i == 1 {
        "tag--green"@
    } else if i == 2 {
        "tag--purple"@
    } else if i == 3 {
        "tag--orange"@
    } else if i == 4 {
        "tag--pink"@
    } else {
        "tag--cyan"@
    }
}

/// The colour class of a tag, fixed by a hash of its name so that a tag has
/// the same colour everywhere.
pub fn tag_color_class(tag: &str) -> (r: &'static str)
    ensures
        r@ == color_class(tag_hash(vstd::utf8::encode_utf8(tag@)) % 6),
{
    let bytes = tag.as_bytes();
    let mut hash: u32 = 5381;
    let mut i: usize = 0;
    while i < bytes.len()
        invariant
            i <= bytes@.len(),
            bytes@ == vstd::utf8::encode_utf8(tag@),
            hash == tag_hash(bytes@.take(i as int)),
        decreases bytes@.len() - i,
    {
        let ghost cur = bytes@.take(i + 1);
        assert(cur.drop_last() =~= bytes@.take(i as int));
        hash = hash.wrapping_mul(33) ^ (bytes[i] as u32);
        i = i + 1;
    }
    assert(bytes@.take(bytes@.len() as int) =~= bytes@);
    let idx = hash % 6;
    if idx == 0 {
        "tag--blue"
    } else if idx == 1 {
        "tag--green"
    } else if idx == 2 {
        "tag--purple"
    } else if idx == 3 {
        "tag--orange"
    } else if idx == 4 {
        "tag--pink"
    } else {
        "tag--cyan"
    }
}

/// The translation key of the message for a broken name rule.
pub open spec fn name_problem_key(p: NameProblem) -> Seq<char> {
    match p {
        NameProblem::Empty => "validate.name_empty"@,
        NameProblem::LeadingHyphen => "validate.name_hyphen"@,
        NameProblem::BadChars => "validate.name_chars"@,
    }
}

/// The translation key of the first rule that an alias name breaks; `None`
/// for a valid name. (The same rules as `Alias::validate_name`.)
pub fn name_invalid_reason(name: &str) -> (r: Option<&'static str>)
    ensures
        match name_problem(name@) {
            Some(p) => r matches Some(k) && k@ == name_problem_key(p),
            None => r is None,
        },
{
    match find_name_problem(name) {
        None => None,
        Some(NameProblem::Empty) => Some("validate.name_empty"),
        Some(NameProblem::LeadingHyphen) => Some("validate.name_hyphen"),
        Some(NameProblem::BadChars) => Some("validate.name_chars"),
    }
}

/// Checks an alias name with the rules of `Alias::validate_name`; the error
/// is the message of the first broken rule in the interface language.
pub fn validate_alias_name(name: &str, locale: Locale) -> (r: Result<(), String>)
    ensures
        match name_problem(name@) {
            Some(p) => r matches Err(m) && m@ == translation(locale, name_problem_key(p)),
            None => r is Ok,
        },
{
    match name_invalid_reason(name) {
        None => Ok(()),
        Some(key) => Err(translate(locale, key)),
    }
}

/// The label of a template category in the interface language: the product
/// names Git and Docker as they are, the other categories translated.
pub open spec fn category_label_in(c: TemplateCategory, locale: Locale) -> Seq<char> {
    match c {
        TemplateCategory::Git => "Git"@,
        TemplateCategory::Docker => "Docker"@,
        TemplateCategory::FileOps => translation(locale, "category.file_ops"@),
        TemplateCategory::Network => translation(locale, "category.network"@),
        TemplateCategory::Custom => translation(locale, "category.custom"@),
    }
}

impl TemplateCategory {
    /// The label of this category in the interface language.
    pub fn label_in(&self, locale: Locale) -> (r: String)
        ensures
            r@ == category_label_in(*self, locale),
    {
        match self {
            TemplateCategory::Git => String::from_str("Git"),
            TemplateCategory::Docker => String::from_str("Docker"),
            TemplateCategory::FileOps => translate(locale, "category.file_ops"),
            TemplateCategory::Network => translate(locale, "category.network"),
            TemplateCategory::Custom => translate(locale, "category.custom"),
        }
    }
}

} // verus!
