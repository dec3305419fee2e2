//! The decisions of the alias and template pages: selecting aliases, the
//! alias form's checks, the import plan and the notices shown after a
//! change.
use vstd::prelude::*;

use crate::alias::{alias_views, all_name_chars, string_views, Alias, AliasView};
use crate::template::{Template, TemplateCategory, TemplateView};
use crate::alias_parser::{clean_tag_pieces, clean_tags, strings_of};
use crate::text::{chars_eq, chars_of, has_prefix, decimal, decimal_string, push_all, split, split_chars, string_of, trim, trimmed};
use crate::ui::command_error::{fill_braces, replace_braces, CommandError};
use crate::ui::i18n::{translate, translation, Locale};

verus! {

/// `v` without its first copy of `x`.
pub open spec fn remove_first(v: Seq<Seq<char>>, x: Seq<char>) -> Seq<Seq<char>> {
    match first_index(v, x) {
        Some(i) => v.remove(i),
        None => v,
    }
}

/// The index of the first copy of `x` in `v`.
pub open spec fn first_index(v: Seq<Seq<char>>, x: Seq<char>) -> Option<int>
    decreases v.len(),
{
    if v.len() == 0 {
        None
    } else if v[0] == x {
        Some(0)
    } else {
        match first_index(v.drop_first(), x) {
            Some(i) => Some(i + 1),
            None => None,
        }
    }
}

proof fn lemma_first_index(v: Seq<Seq<char>>, x: Seq<char>)
    ensures
        match first_index(v, x) {
            Some(i) => 0 <= i < v.len() && v[i] == x && forall|j: int| 0 <= j < i ==> v[j] != x,
            None => forall|j: int| 0 <= j < v.len() ==> v[j] != x,
        },
    decreases v.len(),
{
    if v.len() > 0 && v[0] != x {
        lemma_first_index(v.drop_first(), x);
        assert forall|j: int| 0 < j < v.len() implies #[trigger] v[j] == v.drop_first()[j - 1] by {}
    }
}

proof fn lemma_first_index_is(v: Seq<Seq<char>>, x: Seq<char>, i: Option<int>)
    requires
        match i {
            Some(i) => 0 <= i < v.len() && v[i] == x && forall|j: int| 0 <= j < i ==> v[j] != x,
            None => forall|j: int| 0 <= j < v.len() ==> v[j] != x,
        },
    ensures
        first_index(v, x) == i,
{
    lemma_first_index(v, x);
    match (first_index(v, x), i) {
        (Some(a), Some(b)) => {
            if a < b {
                assert(v[a] == x);
            } else if b < a {
                assert(v[b] == x);
            }
        },
        (Some(a), None) => {
            assert(v[a] == x);
        },
        (None, Some(b)) => {
            assert(v[b] == x);
        },
        (None, None) => {},
    }
}

/// The selection after a click on `name`: a selected name is unselected
/// (its first copy dropped), another is added at the end.
pub open spec fn toggled(sel: Seq<Seq<char>>, name: Seq<char>) -> Seq<Seq<char>> {
    if sel.contains(name) {
        remove_first(sel, name)
    } else {
        sel.push(name)
    }
}

/// The selection law: a click selects the clicked name exactly when it was
/// not selected, leaves every other name as selected or unselected as it
/// was, and keeps a selection free of repeats.
pub proof fn lemma_toggle_law(sel: Seq<Seq<char>>, name: Seq<char>)
    requires
        sel.no_duplicates(),
    ensures
        toggled(sel, name).contains(name) <==> !sel.contains(name),
        forall|x: Seq<char>| x != name ==> (#[trigger] toggled(sel, name).contains(x) <==> sel.contains(x)),
        toggled(sel, name).no_duplicates(),
{
    let r = toggled(sel, name);
    if sel.contains(name) {
        lemma_first_index(sel, name);
        let i = first_index(sel, name)->0;
        assert(r == sel.remove(i));
        assert forall|x: Seq<char>| #[trigger] r.contains(x) <==> (sel.contains(x) && x != name) by {
            if r.contains(x) {
                let k = choose|k: int| 0 <= k < r.len() && r[k] == x;
                if k < i {
                    assert(sel[k] == x);
                } else {
                    assert(sel[k + 1] == x);
                    assert(sel[i] == name);
                }
            }
            if sel.contains(x) && x != name {
                let j = choose|j: int| 0 <= j < sel.len() && sel[j] == x;
                if j < i {
                    assert(r[j] == x);
                } else {
                    assert(j != i);
                    assert(r[j - 1] == x);
                }
            }
        }
        assert forall|a: int, b: int| 0 <= a < r.len() && 0 <= b < r.len() && a != b implies r[a]
            != r[b] by {
            let a2 = if a < i { a } else { a + 1 };
            let b2 = if b < i { b } else { b + 1 };
            assert(r[a] == sel[a2] && r[b] == sel[b2]);
        }
    } else {
        assert(r == sel.push(name));
        assert forall|x: Seq<char>| #[trigger] r.contains(x) <==> (sel.contains(x) || x == name) by {
            if r.contains(x) {
                let k = choose|k: int| 0 <= k < r.len() && r[k] == x;
                if k < sel.len() {
                    assert(sel[k] == x);
                }
            }
            if sel.contains(x) {
                let j = choose|j: int| 0 <= j < sel.len() && sel[j] == x;
                assert(r[j] == x);
            }
            if x == name {
                assert(r[sel.len() as int] == x);
            }
        }
        assert forall|a: int, b: int| 0 <= a < r.len() && 0 <= b < r.len() && a != b implies r[a]
            != r[b] by {
            if a == sel.len() && b < sel.len() {
                assert(sel.contains(sel[b]));
            } else if b == sel.len() && a < sel.len() {
                assert(sel.contains(sel[a]));
            }
        }
    }
}

/// The selection after a click on an alias: selected aliases are
/// unselected (their first copy dropped), others are added at the end.
pub fn toggle_selected(selected: Vec<String>, name: String) -> (r: Vec<String>)
    ensures
        string_views(r@) == toggled(string_views(selected@), name@),
{
    let ghost sv = string_views(selected@);
    let n = chars_of(name.as_str());
    let mut i: usize = 0;
    while i < selected.len()
        invariant
            i <= selected@.len(),
            sv == string_views(selected@),
            n@ == name@,
            forall|j: int| 0 <= j < i ==> sv[j] != name@,
        decreases selected@.len() - i,
    {
        if chars_eq(&chars_of(selected[i].as_str()), &n) {
            proof {
                lemma_first_index_is(sv, name@, Some(i as int));
                assert(sv.contains(name@)) by {
                    assert(sv[i as int] == name@);
                }
            }
            let mut r = selected;
            r.remove(i);
            assert(string_views(r@) =~= sv.remove(i as int));
            return r;
        }
        i = i + 1;
    }
    assert(!sv.contains(name@));
    let mut r = selected;
    let ghost n0 = name@;
    r.push(name);
    assert(string_views(r@) =~= sv.push(n0));
    r
}

/// Every visible alias is selected.
pub open spec fn all_visible_selected(visible: Seq<AliasView>, selected: Seq<Seq<char>>) -> bool {
    forall|i: int| 0 <= i < visible.len() ==> selected.contains(#[trigger] visible[i].name)
}

/// Whether every visible alias is selected.
pub fn every_visible_selected(visible: &[Alias], selected: &[String]) -> (r: bool)
    ensures
        r == all_visible_selected(alias_views(visible@), string_views(selected@)),
{
    let ghost av = alias_views(visible@);
    let ghost sv = string_views(selected@);
    let mut i: usize = 0;
    while i < visible.len()
        invariant
            i <= visible@.len(),
            av == alias_views(visible@),
            sv == string_views(selected@),
            forall|k: int| 0 <= k < i ==> sv.contains(#[trigger] av[k].name),
        decreases visible@.len() - i,
    {
        let n = chars_of(visible[i].name.as_str());
        let mut found = false;
        let mut j: usize = 0;
        while j < selected.len()
            invariant
                j <= selected@.len(),
                sv == string_views(selected@),
                n@ == av[i as int].name,
                i < visible@.len(),
                av == alias_views(visible@),
                found ==> sv.contains(n@),
                !found ==> forall|k: int| 0 <= k < j ==> sv[k] != n@,
            decreases selected@.len() - j,
        {
            if !found && chars_eq(&chars_of(selected[j].as_str()), &n) {
                found = true;
                assert(sv[j as int] == n@);
            }
            j = j + 1;
        }
        if !found {
            assert(!sv.contains(av[i as int].name));
            return false;
        }
        i = i + 1;
    }
    true
}

/// The names of some aliases, in order.
pub open spec fn names_of(v: Seq<AliasView>) -> Seq<Seq<char>> {
    v.map_values(|a: AliasView| a.name)
}

/// The selection after "select all": cleared when every visible alias is
/// already selected, otherwise exactly the visible aliases.
pub fn toggle_select_all(visible: &[Alias], selected: Vec<String>) -> (r: Vec<String>)
    ensures
        string_views(r@) == if all_visible_selected(alias_views(visible@), string_views(selected@)) {
            Seq::<Seq<char>>::empty()
        } else {
            names_of(alias_views(visible@))
        },
{
    if every_visible_selected(visible, selected.as_slice()) {
        let r: Vec<String> = Vec::new();
        assert(string_views(r@) =~= Seq::<Seq<char>>::empty());
        return r;
    }
    let mut r: Vec<String> = Vec::new();
    let mut i: usize = 0;
    while i < visible.len()
        invariant
            i <= visible@.len(),
            string_views(r@) == names_of(alias_views(visible@)).take(i as int),
        decreases visible@.len() - i,
    {
        let ghost r0 = r@;
        r.push(visible[i].name.clone());
        assert(string_views(r@) =~= string_views(r0).push(visible@[i as int].name@));
        assert(names_of(alias_views(visible@)).take(i + 1) =~= names_of(alias_views(visible@)).take(
            i as int,
        ).push(visible@[i as int].name@));
        i = i + 1;
    }
    assert(names_of(alias_views(visible@)).take(visible@.len() as int) =~= names_of(
        alias_views(visible@),
    ));
    r
}

/// `s` with its first `{}` replaced by `d`.
pub open spec fn fill_first(s: Seq<char>, d: Seq<char>) -> Seq<char>
    decreases s.len(),
{
    if s.len() == 0 {
        Seq::empty()
    } else if s.len() >= 2 && s[0] == '{' && s[1] == '}' {
        d + s.skip(2)
    } else {
        seq![s[0]] + fill_first(s.skip(1), d)
    }
}

/// `s` with its first `{}` replaced by `d`.
pub fn replace_first_braces(s: &[char], d: &[char]) -> (r: Vec<char>)
    ensures
        r@ == fill_first(s@, d@),
{
    let mut out: Vec<char> = Vec::new();
    let mut i: usize = 0;
    assert(s@.skip(0) =~= s@);
    while i < s.len()
        invariant
            i <= s@.len(),
            out@ + fill_first(s@.skip(i as int), d@) == fill_first(s@, d@),
        decreases s@.len() - i,
    {
        let ghost rest = s@.skip(i as int);
        let ghost o0 = out@;
        if i + 1 < s.len() && s[i] == '{' && s[i + 1] == '}' {
            push_all(&mut out, d);
            let tail = crate::text::slice_copy(s, i + 2, s.len());
            push_all(&mut out, &tail);
            assert(rest.skip(2) =~= tail@);
            assert(o0 + (d@ + rest.skip(2)) =~= out@);
            return out;
        }
        out.push(s[i]);
        assert(rest.skip(1) =~= s@.skip(i + 1));
        assert(o0 + (seq![rest[0]] + fill_first(rest.skip(1), d@)) =~= out@ + fill_first(
            s@.skip(i + 1),
            d@,
        ));
        i = i + 1;
    }
    assert(out@ + fill_first(s@.skip(s@.len() as int), d@) =~= out@);
    out
}

/// The alias count above the list: all of them, or, while searching, how
/// many are shown of how many.
pub open spec fn count_text(locale: Locale, total: nat, shown: nat, searching: bool) -> Seq<char> {
    if searching {
        fill_first(
            fill_first(translation(locale, "alias.count_filtered"@), decimal(shown)),
            decimal(total),
        )
    } else {
        fill_braces(translation(locale, "alias.count"@), decimal(total))
    }
}

/// The alias count above the list.
pub fn alias_count_text(locale: Locale, total: u64, shown: u64, searching: bool) -> (r: String)
    ensures
        r@ == count_text(locale, total as nat, shown as nat, searching),
{
    let t = chars_of(translate(locale, if searching {
        "alias.count_filtered"
    } else {
        "alias.count"
    }).as_str());
    if searching {
        let once = replace_first_braces(&t, &chars_of(decimal_string(shown).as_str()));
        string_of(&replace_first_braces(&once, &chars_of(decimal_string(total).as_str())))
    } else {
        string_of(&replace_braces(&t, &chars_of(decimal_string(total).as_str())))
    }
}

/// The result of checking the alias form.
#[derive(Debug)]
pub struct FormCheck {
    /// The message under the name field, if the name is not accepted.
    pub name_error: Option<String>,
    /// The message under the command field, if the command is missing.
    pub command_error: Option<String>,
    /// The tags typed, split at commas, trimmed, without empty ones.
    pub tags: Vec<String>,
}

/// The message for a name that the form does not accept.
pub open spec fn form_name_error(name: Seq<char>) -> Option<Seq<char>> {
    if name.len() == 0 {
        Some("别名名称不能为空"@)
    } else if name[0] == '-' {
        Some("别名名称不能以连字符开头"@)
    } else if !all_name_chars(name) {
        Some("别名名称只能包含字母、数字、下划线和连字符"@)
    } else {
        None
    }
}

/// The tags typed in the form's tag field.
pub open spec fn typed_tags(text: Seq<char>) -> Seq<Seq<char>> {
    clean_tags(split(text, ','))
}

/// The view of an optional message.
pub open spec fn message_view(m: Option<String>) -> Option<Seq<char>> {
    match m {
        Some(s) => Some(s@),
        None => None,
    }
}

/// The form law: the alias form accepts a name exactly when the backend's
/// name rules accept it.
pub proof fn lemma_form_name_agrees(name: Seq<char>)
    ensures
        form_name_error(name) is None <==> crate::alias::name_problem(name) is None,
{
}

/// Every tag kept from the pieces is non-empty and has no blank at either
/// end.
proof fn lemma_clean_tags_trimmed(parts: Seq<Seq<char>>)
    ensures
        forall|k: int|
            0 <= k < clean_tags(parts).len() ==> (#[trigger] clean_tags(parts)[k]).len() > 0 && trim(
                clean_tags(parts)[k],
            ) == clean_tags(parts)[k],
    decreases parts.len(),
{
    if parts.len() > 0 {
        lemma_clean_tags_trimmed(parts.drop_last());
        crate::roundtrip::lemma_trim_piece(parts.last());
        let r0 = clean_tags(parts.drop_last());
        let r = clean_tags(parts);
        assert forall|k: int| 0 <= k < r.len() implies (#[trigger] r[k]).len() > 0 && trim(r[k])
            == r[k] by {
            if k < r0.len() {
                assert(r[k] == r0[k]);
            }
        }
    }
}

/// The tag field law: every tag read from the field is non-empty and
/// trimmed.
pub proof fn lemma_typed_tags_trimmed(text: Seq<char>)
    ensures
        forall|k: int|
            0 <= k < typed_tags(text).len() ==> (#[trigger] typed_tags(text)[k]).len() > 0 && trim(
                typed_tags(text)[k],
            ) == typed_tags(text)[k],
{
    lemma_clean_tags_trimmed(split(text, ','));
}

/// Checks the alias form: the name must be non-empty, must not start with a
/// hyphen and may hold only letters, digits, `_` and `-`; the command must
/// not be empty; the tags are read from the comma-separated tag field. The
/// form is submitted when neither message is set.
pub fn check_alias_form(name: &str, command: &str, tags_text: &str) -> (r: FormCheck)
    ensures
        message_view(r.name_error) == form_name_error(name@),
        message_view(r.command_error) == (if command@.len() == 0 {
            Some("命令不能为空"@)
        } else {
            None
        }),
        string_views(r.tags@) == typed_tags(tags_text@),
{
    let n = chars_of(name);
    let name_error = if n.len() == 0 {
        Some(String::from_str("别名名称不能为空"))
    } else if n[0] == '-' {
        Some(String::from_str("别名名称不能以连字符开头"))
    } else if !crate::alias::check_name_chars(name) {
        Some(String::from_str("别名名称只能包含字母、数字、下划线和连字符"))
    } else {
        None
    };
    let c = chars_of(command);
    let command_error = if c.len() == 0 {
        Some(String::from_str("命令不能为空"))
    } else {
        None
    };
    let pieces = split_chars(&chars_of(tags_text), ',');
    let tags = strings_of(&clean_tag_pieces(&pieces));
    FormCheck { name_error, command_error, tags }
}

/// The tag field of the form for an alias being edited: its tags joined
/// with `, `.
pub fn tags_field_text(tags: &Vec<String>) -> (r: String)
    ensures
        r@ == crate::text::join(string_views(tags@), ", "@),
{
    let mut parts: Vec<Vec<char>> = Vec::new();
    let mut i: usize = 0;
    while i < tags.len()
        invariant
            i <= tags@.len(),
            crate::text::views(parts@) == string_views(tags@).take(i as int),
        decreases tags@.len() - i,
    {
        let ghost p0 = parts@;
        let c = chars_of(tags[i].as_str());
        parts.push(c);
        assert(crate::text::views(parts@) =~= crate::text::views(p0).push(c@));
        assert(string_views(tags@).take(i + 1) =~= string_views(tags@).take(i as int).push(
            tags@[i as int]@,
        ));
        i = i + 1;
    }
    assert(string_views(tags@).take(tags@.len() as int) =~= string_views(tags@));
    let sep = chars_of(", ");
    string_of(&crate::text::join_chars(&parts, &sep))
}

/// What a page shows after a change: nothing, a success message or an error
/// message.
#[derive(Debug, PartialEq, Eq)]
pub enum Notice {
    Nothing,
    Success(String),
    Failure(String),
}

/// The view of a notice.
pub open spec fn notice_view(n: Notice) -> (int, Seq<char>) {
    match n {
        Notice::Nothing => (0, Seq::empty()),
        Notice::Success(m) => (1, m@),
        Notice::Failure(m) => (2, m@),
    }
}

/// The notice after an import: the failures, with the count of imported
/// aliases, when some entries failed; otherwise the count, when some were
/// imported.
pub open spec fn import_notice_view(locale: Locale, success: nat, errors: Seq<Seq<char>>) -> (
    int,
    Seq<char>,
) {
    if errors.len() == 0 {
        if success > 0 {
            (1, fill_braces(translation(locale, "alias.import_success"@), decimal(success)))
        } else {
            (0, Seq::empty())
        }
    } else {
        (
            2,
            fill_braces(
                fill_first(translation(locale, "alias.import_partial"@), decimal(success)),
                crate::text::join(errors, ", "@),
            ),
        )
    }
}

/// The failures joined with `, `.
fn joined_errors(errors: &Vec<String>) -> (r: Vec<char>)
    ensures
        r@ == crate::text::join(string_views(errors@), ", "@),
{
    chars_of(tags_field_text(errors).as_str())
}

/// The notice after importing aliases from a file.
pub fn import_notice(locale: Locale, success: u64, errors: &Vec<String>) -> (r: Notice)
    ensures
        notice_view(r) == import_notice_view(locale, success as nat, string_views(errors@)),
{
    if errors.len() == 0 {
        if success > 0 {
            let t = chars_of(translate(locale, "alias.import_success").as_str());
            Notice::Success(
                string_of(&replace_braces(&t, &chars_of(decimal_string(success).as_str()))),
            )
        } else {
            Notice::Nothing
        }
    } else {
        let t = chars_of(translate(locale, "alias.import_partial").as_str());
        let once = replace_first_braces(&t, &chars_of(decimal_string(success).as_str()));
        Notice::Failure(string_of(&replace_braces(&once, &joined_errors(errors))))
    }
}

/// The running total of an import from a file, which runs a batch add and
/// then a batch update: the entries done, the failure messages of single
/// entries, and whether a batch failed as a whole (after which no further
/// batch runs).
pub struct ImportTally {
    pub success: u64,
    pub errors: Vec<String>,
    pub failed: bool,
}

impl ImportTally {
    /// Nothing done, nothing failed.
    pub fn new() -> (r: ImportTally)
        ensures
            r.success == 0,
            r.errors@.len() == 0,
            !r.failed,
    {
        ImportTally { success: 0, errors: Vec::new(), failed: false }
    }

    /// Whether a batch of `entries` entries runs next: it has entries and no
    /// batch before it failed as a whole.
    pub fn runs_next(&self, entries: usize) -> (r: bool)
        ensures
            r == (!self.failed && entries > 0),
    {
        !self.failed && entries > 0
    }

    /// Counts in a batch that ran: its count of entries done and its failure
    /// messages, or `None` when the batch failed as a whole.
    pub fn record(&mut self, outcome: Option<(u64, Vec<String>)>)
        requires
            outcome matches Some((n, _)) ==> old(self).success + n <= u64::MAX,
        ensures
            match outcome {
                Some((n, errs)) => {
                    &&& final(self).success == old(self).success + n
                    &&& final(self).errors@ == old(self).errors@ + errs@
                    &&& final(self).failed == old(self).failed
                },
                None => {
                    &&& final(self).success == old(self).success
                    &&& final(self).errors@ == old(self).errors@
                    &&& final(self).failed
                },
            },
    {
        match outcome {
            Some((n, errs)) => {
                let mut errs = errs;
                self.success = self.success + n;
                self.errors.append(&mut errs);
            },
            None => {
                self.failed = true;
            },
        }
    }
}

/// The notice after deleting the selected aliases: the failures when some
/// names failed, otherwise the count deleted.
pub fn delete_notice(locale: Locale, deleted: u64, errors: &Vec<String>) -> (r: Notice)
    ensures
        notice_view(r) == if errors@.len() > 0 {
            (
                2int,
                fill_braces(
                    translation(locale, "alias.delete_partial"@),
                    crate::text::join(string_views(errors@), ", "@),
                ),
            )
        } else {
            (1int, fill_braces(translation(locale, "alias.delete_success"@), decimal(deleted as nat)))
        },
{
    if errors.len() > 0 {
        let t = chars_of(translate(locale, "alias.delete_partial").as_str());
        Notice::Failure(string_of(&replace_braces(&t, &joined_errors(errors))))
    } else {
        let t = chars_of(translate(locale, "alias.delete_success").as_str());
        Notice::Success(string_of(&replace_braces(&t, &chars_of(decimal_string(deleted).as_str()))))
    }
}

/// The message after importing templates: the first `{}` of the message is
/// filled with the number imported, the others with the number skipped.
pub fn template_import_notice(locale: Locale, imported: u64, skipped: u64) -> (r: String)
    ensures
        r@ == fill_braces(
            fill_first(translation(locale, "template.import_skipped"@), decimal(imported as nat)),
            decimal(skipped as nat),
        ),
{
    let t = chars_of(translate(locale, "template.import_skipped").as_str());
    let once = replace_first_braces(&t, &chars_of(decimal_string(imported).as_str()));
    string_of(&replace_braces(&once, &chars_of(decimal_string(skipped).as_str())))
}

/// The name to offer overwriting when adding an alias met a conflict: the
/// context of an `alias_conflict` error, or the name typed when it carries
/// none; `None` for any other error.
pub fn conflict_alias_name(err: &CommandError, name: &str) -> (r: Option<String>)
    ensures
        match r {
            Some(n) => err.code@ == "alias_conflict"@ && n@ == match err.detail {
                Some(d) => d@,
                None => name@,
            },
            None => err.code@ != "alias_conflict"@,
        },
{
    if chars_eq(&chars_of(err.code.as_str()), &chars_of("alias_conflict")) {
        match &err.detail {
            Some(d) => Some(d.clone()),
            None => Some(String::from_str(name)),
        }
    } else {
        None
    }
}

/// A new user template from the custom template form: name, command and
/// description trimmed, in the custom category, without tags; `None` when
/// the name or the command is blank.
pub fn custom_template(name: &str, command: &str, description: &str) -> (r: Option<Template>)
    ensures
        match r {
            Some(t) => trim(name@).len() > 0 && trim(command@).len() > 0 && t@ == (TemplateView {
                name: trim(name@),
                command: trim(command@),
                description: trim(description@),
                category: TemplateCategory::Custom,
                tags: Seq::empty(),
            }),
            None => trim(name@).len() == 0 || trim(command@).len() == 0,
        },
{
    let n = trimmed(&chars_of(name));
    let c = trimmed(&chars_of(command));
    if n.len() == 0 || c.len() == 0 {
        return None;
    }
    let d = trimmed(&chars_of(description));
    let t = Template::new(string_of(&n), string_of(&c), string_of(&d), TemplateCategory::Custom);
    assert(string_views(t.tags@) =~= Seq::<Seq<char>>::empty());
    Some(t)
}

/// Whether the navigation entry for route `path` is highlighted on route
/// `current`: the home entry (`/`) on `/` and `/aliases`, any other entry on
/// the routes that start with its path.
pub fn nav_active(path: &str, current: &str) -> (r: bool)
    ensures
        r == if path@ == "/"@ {
            current@ == "/"@ || current@ == "/aliases"@
        } else {
            current@.len() >= path@.len() && current@.subrange(0, path@.len() as int) == path@
        },
{
    let p = chars_of(path);
    let c = chars_of(current);
    if chars_eq(&p, &chars_of("/")) {
        chars_eq(&c, &chars_of("/")) || chars_eq(&c, &chars_of("/aliases"))
    } else {
        has_prefix(&c, &p)
    }
}

/// The theme to start with, `Some(true)` for dark: the stored choice when it
/// is `dark` or `light`, otherwise the system's preference, if known.
pub fn initial_theme(stored: Option<&str>, system_dark: Option<bool>) -> (r: Option<bool>)
    ensures
        r == match stored {
            Some(s) => if s@ == "dark"@ {
                Some(true)
            } else if s@ == "light"@ {
                Some(false)
            } else {
                system_dark
            },
            None => system_dark,
        },
{
    match stored {
        Some(s) => {
            let v = chars_of(s);
            if chars_eq(&v, &chars_of("dark")) {
                Some(true)
            } else if chars_eq(&v, &chars_of("light")) {
                Some(false)
            } else {
                system_dark
            }
        },
        None => system_dark,
    }
}

} // verus!
