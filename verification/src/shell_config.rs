//! Alias operations on the text of a shell configuration file.
//!
//! Each operation takes the current text of the file and gives the text to
//! write back (or nothing, when the file is to stay as it is); reading and
//! writing the file is left to the caller.
use vstd::prelude::*;

use crate::alias::{
    alias_views, name_problem, name_problem_message, string_views, strings_equal, Alias, AliasView,
    NameProblem,
};
use crate::alias_parser::{
    add_alias_to_content, delete_alias_from_content, find_alias_named, has_name, index_named,
    lemma_index_named, lemma_index_named_is, parse_aliases_from_content, parsed_aliases, rebuild_config_content,
    rebuilt_content, remove_named, remove_named_vec, replace_named, added_content, count_named,
    update_alias_in_content, added_all, append_alias_chars,
};
use crate::error::AppError;
use crate::shell_type::ShellType;
use crate::text::{chars_of, string_of};

verus! {

/// Manages the aliases of a shell configuration file.
pub struct ShellConfigManager;

/// The result of a batch operation.
#[derive(Debug)]
pub struct BatchOutcome {
    /// Entries done.
    pub success_count: usize,
    /// Entries skipped because the alias already exists (batch add only).
    pub skipped_count: usize,
    /// One message per failed entry.
    pub errors: Vec<String>,
}

impl BatchOutcome {
    /// An outcome with nothing done, skipped or failed.
    pub fn new() -> (r: BatchOutcome)
        ensures
            r.success_count == 0,
            r.skipped_count == 0,
            r.errors@.len() == 0,
    {
        BatchOutcome { success_count: 0, skipped_count: 0, errors: Vec::new() }
    }
}

impl Default for BatchOutcome {
    fn default() -> (r: BatchOutcome)
        ensures
            r.success_count == 0,
            r.skipped_count == 0,
            r.errors@.len() == 0,
    {
        BatchOutcome::new()
    }
}

/// The state of a batch after some of its entries.
pub struct BatchState {
    /// The alias list as the batch leaves it.
    pub current: Seq<AliasView>,
    pub success: nat,
    pub skipped: nat,
    pub errors: Seq<Seq<char>>,
    /// Whether the alias list was changed.
    pub changed: bool,
}

/// The message of an entry whose name is invalid: the name, then the
/// message of the `InvalidAliasName` error.
pub open spec fn invalid_entry(name: Seq<char>, p: NameProblem) -> Seq<char> {
    name + ": "@ + "Invalid alias name: "@ + name_problem_message(p)
}

/// The message of an entry whose alias does not exist: the name, then the
/// message of the `AliasNotFound` error.
pub open spec fn missing_entry(name: Seq<char>) -> Seq<char> {
    name + ": "@ + "Alias not found: "@ + name
}

/// Batch add: an invalid name fails, an existing name is skipped, any other
/// alias is appended to the list.
pub open spec fn add_batch(init: Seq<AliasView>, batch: Seq<AliasView>) -> BatchState
    decreases batch.len(),
{
    if batch.len() == 0 {
        BatchState { current: init, success: 0, skipped: 0, errors: Seq::empty(), changed: false }
    } else {
        let st = add_batch(init, batch.drop_last());
        let a = batch.last();
        match name_problem(a.name) {
            Some(p) => BatchState { errors: st.errors.push(invalid_entry(a.name, p)), ..st },
            None => if has_name(st.current, a.name) {
                BatchState { skipped: st.skipped + 1, ..st }
            } else {
                BatchState {
                    current: st.current.push(a),
                    success: st.success + 1,
                    changed: true,
                    ..st
                }
            },
        }
    }
}

/// Batch delete: a name that the starting list does not have fails; any
/// other name is removed from the list.
pub open spec fn delete_batch(init: Seq<AliasView>, names: Seq<Seq<char>>) -> BatchState
    decreases names.len(),
{
    if names.len() == 0 {
        BatchState { current: init, success: 0, skipped: 0, errors: Seq::empty(), changed: false }
    } else {
        let st = delete_batch(init, names.drop_last());
        let n = names.last();
        if !has_name(init, n) {
            BatchState { errors: st.errors.push(missing_entry(n)), ..st }
        } else {
            BatchState {
                current: remove_named(st.current, n),
                success: st.success + 1,
                changed: true,
                ..st
            }
        }
    }
}

/// The alias `e` with the command and tags of `a`.
pub open spec fn updated_entry(e: AliasView, a: AliasView) -> AliasView {
    AliasView { command: a.command, tags: a.tags, ..e }
}

/// Batch update: an invalid name fails, a name that the list does not have
/// fails; otherwise the first alias with that name takes the command and
/// tags of the entry, in place.
pub open spec fn update_batch(init: Seq<AliasView>, batch: Seq<AliasView>) -> BatchState
    decreases batch.len(),
{
    if batch.len() == 0 {
        BatchState { current: init, success: 0, skipped: 0, errors: Seq::empty(), changed: false }
    } else {
        let st = update_batch(init, batch.drop_last());
        let a = batch.last();
        match name_problem(a.name) {
            Some(p) => BatchState { errors: st.errors.push(invalid_entry(a.name, p)), ..st },
            None => match index_named(st.current, a.name) {
                Some(k) => {
                    let e = st.current[k];
                    if e.command != a.command || e.tags != a.tags {
                        BatchState {
                            current: st.current.update(k, updated_entry(e, a)),
                            success: st.success + 1,
                            changed: true,
                            ..st
                        }
                    } else {
                        BatchState { success: st.success + 1, ..st }
                    }
                },
                None => BatchState { errors: st.errors.push(missing_entry(a.name)), ..st },
            },
        }
    }
}

/// The batch add law: the list starts with the aliases it started from;
/// each alias after them is an entry of the batch with a valid name; every
/// entry with a valid name ends up with its name in the list; no name is
/// added twice or added when the list already had it; and the list is marked
/// changed exactly when something was added.
pub proof fn lemma_add_batch_law(p: Seq<AliasView>, batch: Seq<AliasView>)
    ensures
        ({
            let st = add_batch(p, batch);
            let c = st.current;
            &&& p.len() <= c.len()
            &&& forall|j: int| 0 <= j < p.len() ==> #[trigger] c[j] == p[j]
            &&& forall|j: int|
                p.len() <= j < c.len() ==> exists|i: int|
                    0 <= i < batch.len() && #[trigger] batch[i] == #[trigger] c[j] && name_problem(
                        batch[i].name,
                    ) is None
            &&& forall|i: int|
                0 <= i < batch.len() && name_problem(#[trigger] batch[i].name) is None ==> exists|
                    j: int,
                | 0 <= j < c.len() && c[j].name == batch[i].name
            &&& forall|j: int, k: int|
                0 <= j < k < c.len() && p.len() <= k ==> #[trigger] c[j].name != #[trigger] c[k].name
            &&& (st.changed <==> c.len() > p.len())
        }),
    decreases batch.len(),
{
    if batch.len() > 0 {
        let b0 = batch.drop_last();
        lemma_add_batch_law(p, b0);
        let st = add_batch(p, b0);
        let st1 = add_batch(p, batch);
        let c0 = st.current;
        let c = st1.current;
        let a = batch.last();
        let n = batch.len() - 1;
        lemma_index_named(c0, a.name);
        assert forall|j: int|
            p.len() <= j < c.len() implies exists|i: int|
                0 <= i < batch.len() && #[trigger] batch[i] == #[trigger] c[j] && name_problem(
                    batch[i].name,
                ) is None by {
            if j < c0.len() {
                assert(c[j] == c0[j]);
                let i = choose|i: int|
                    0 <= i < b0.len() && #[trigger] b0[i] == #[trigger] c0[j] && name_problem(
                        b0[i].name,
                    ) is None;
                assert(batch[i] == b0[i]);
            } else {
                assert(c[j] == a);
                assert(batch[n] == a);
            }
        }
        assert forall|i: int|
            0 <= i < batch.len() && name_problem(#[trigger] batch[i].name) is None implies exists|
                j: int,
            | 0 <= j < c.len() && c[j].name == batch[i].name by {
            if i < n {
                assert(b0[i] == batch[i]);
                let j = choose|j: int| 0 <= j < c0.len() && c0[j].name == b0[i].name;
                assert(c[j] == c0[j]);
            } else {
                match index_named(c0, a.name) {
                    Some(k) => {
                        assert(c[k] == c0[k]);
                    },
                    None => {
                        assert(c[c0.len() as int] == a);
                    },
                }
            }
        }
        assert forall|j: int, k: int|
            0 <= j < k < c.len() && p.len() <= k implies #[trigger] c[j].name
            != #[trigger] c[k].name by {
            if k < c0.len() {
                assert(c[j] == c0[j] && c[k] == c0[k]);
            } else {
                assert(c[k] == a);
                assert(c[j] == c0[j]);
            }
        }
    }
}

/// Two lists with the same names at the same positions find a name at the
/// same index.
proof fn lemma_index_named_same_names(v: Seq<AliasView>, w: Seq<AliasView>, n: Seq<char>)
    requires
        v.len() == w.len(),
        forall|j: int| 0 <= j < v.len() ==> (#[trigger] v[j]).name == w[j].name,
    ensures
        index_named(v, n) == index_named(w, n),
{
    lemma_index_named(v, n);
    match index_named(v, n) {
        Some(k) => {
            assert forall|j: int| 0 <= j < k implies #[trigger] w[j].name != n by {
                assert(v[j].name == w[j].name);
            }
            lemma_index_named_is(w, n, Some(k));
        },
        None => {
            assert forall|j: int| 0 <= j < w.len() implies #[trigger] w[j].name != n by {
                assert(v[j].name == w[j].name);
            }
            lemma_index_named_is(w, n, None);
        },
    }
}

/// Entry `i` of `batch` has a valid name, and no later entry with a valid
/// name has the same name.
pub open spec fn last_valid_entry(batch: Seq<AliasView>, i: int) -> bool {
    &&& 0 <= i < batch.len()
    &&& name_problem(batch[i].name) is None
    &&& forall|i2: int|
        i < i2 < batch.len() && name_problem(batch[i2].name) is None ==> #[trigger] batch[i2].name
            != batch[i].name
}

/// The batch update law: the list keeps its length and its names in place;
/// the first alias named by an entry with a valid name ends with the command
/// and tags of the last such entry; an alias that no entry with a valid name
/// names is left as it is; and the list is marked changed whenever it
/// differs from the list the batch started from.
pub proof fn lemma_update_batch_law(p: Seq<AliasView>, batch: Seq<AliasView>)
    ensures
        update_batch(p, batch).current.len() == p.len(),
        forall|j: int|
            0 <= j < p.len() ==> (#[trigger] update_batch(p, batch).current[j]).name == p[j].name,
        forall|i: int, k: int|
            last_valid_entry(batch, i) && index_named(p, batch[i].name) == Some(k) ==> {
                &&& (#[trigger] update_batch(p, batch).current[k]).command == (#[trigger] batch[i]).command
                &&& update_batch(p, batch).current[k].tags == batch[i].tags
            },
        forall|k: int|
            0 <= k < p.len() && (forall|i: int|
                0 <= i < batch.len() && name_problem(batch[i].name) is None ==> index_named(
                    p,
                    #[trigger] batch[i].name,
                ) != Some(k)) ==> #[trigger] update_batch(p, batch).current[k] == p[k],
        update_batch(p, batch).current != p ==> update_batch(p, batch).changed,
    decreases batch.len(),
{
    if batch.len() > 0 {
        let b0 = batch.drop_last();
        lemma_update_batch_law(p, b0);
        let st = update_batch(p, b0);
        let st1 = update_batch(p, batch);
        let a = batch.last();
        let n = batch.len() - 1;
        lemma_index_named_same_names(st.current, p, a.name);
        lemma_index_named(st.current, a.name);
        // the one position the last entry may change
        let pos: int = match (name_problem(a.name), index_named(st.current, a.name)) {
            (None, Some(k0)) => k0,
            _ => -1,
        };
        assert(st1.current.len() == st.current.len());
        assert forall|j: int| 0 <= j < st.current.len() && j != pos implies #[trigger] st1.current[j]
            == st.current[j] by {}
        if pos >= 0 {
            assert(st1.current[pos].command == a.command && st1.current[pos].tags == a.tags);
            assert(st1.current[pos].name == st.current[pos].name);
        }
        assert forall|j: int| 0 <= j < p.len() implies (#[trigger] st1.current[j]).name
            == p[j].name by {
            assert(st1.current[j].name == st.current[j].name);
        }
        assert forall|i: int, k: int|
            last_valid_entry(batch, i) && index_named(p, batch[i].name) == Some(k) implies {
            &&& (#[trigger] st1.current[k]).command == (#[trigger] batch[i]).command
            &&& st1.current[k].tags == batch[i].tags
        } by {
            if i == n {
                lemma_index_named(st.current, a.name);
            } else {
                assert(b0[i] == batch[i]);
                assert(last_valid_entry(b0, i)) by {
                    assert forall|i2: int|
                        i < i2 < b0.len() && name_problem(b0[i2].name) is None implies #[trigger] b0[i2].name
                        != b0[i].name by {
                        assert(b0[i2] == batch[i2]);
                    }
                }
                assert(st.current[k].command == b0[i].command);
                if name_problem(a.name) is None {
                    assert(a.name != batch[i].name);
                    lemma_index_named(p, batch[i].name);
                    lemma_index_named(p, a.name);
                }
            }
        }
        assert forall|k: int|
            0 <= k < p.len() && (forall|i: int|
                0 <= i < batch.len() && name_problem(batch[i].name) is None ==> index_named(
                    p,
                    #[trigger] batch[i].name,
                ) != Some(k)) implies #[trigger] st1.current[k] == p[k] by {
            assert forall|i: int|
                0 <= i < b0.len() && name_problem(b0[i].name) is None implies index_named(
                    p,
                    #[trigger] b0[i].name,
                ) != Some(k) by {
                assert(b0[i] == batch[i]);
            }
            assert(st.current[k] == p[k]);
            if name_problem(a.name) is None {
                assert(batch[n] == a);
                assert(index_named(p, a.name) != Some(k));
            }
        }
        if st1.current != p && !st1.changed {
            assert(!st.changed);
            assert(st1.current == st.current);
        }
    }
}

/// The outcome of a batch matches its final state, and a text is to be
/// written back exactly when the list changed: the text `text`.
pub open spec fn batch_result(
    st: BatchState,
    outcome: BatchOutcome,
    write: Option<String>,
    text: Seq<char>,
) -> bool {
    &&& outcome.success_count == st.success
    &&& outcome.skipped_count == st.skipped
    &&& string_views(outcome.errors@) == st.errors
    &&& match write {
        Some(w) => st.changed && w@ == text,
        None => !st.changed,
    }
}

/// The aliases that a batch add appends: those past the aliases it started
/// from.
pub open spec fn batch_added(init: Seq<AliasView>, st: BatchState) -> Seq<AliasView> {
    st.current.subrange(init.len() as int, st.current.len() as int)
}

/// `a`, `b`, `c` and `d` in a row.
fn concat4(a: &str, b: &str, c: &str, d: &str) -> (r: String)
    ensures
        r@ == a@ + b@ + c@ + d@,
{
    let mut r = String::from_str(a);
    r.append(b);
    r.append(c);
    r.append(d);
    r
}

impl ShellConfigManager {
    /// All aliases of a configuration text.
    pub fn list_aliases(content: &str) -> (r: Vec<Alias>)
        ensures
            alias_views(r@) == parsed_aliases(content@),
    {
        parse_aliases_from_content(content)
    }

    /// The text with a new alias appended. `InvalidAliasName` when the name
    /// is not valid; `AliasExists` when an alias has that name already.
    pub fn add_alias(content: &str, alias: &Alias) -> (r: Result<String, AppError>)
        ensures
            match name_problem(alias.name@) {
                Some(p) => r matches Err(e) && (e matches AppError::InvalidAliasName(m)
                    && m@ == name_problem_message(p)),
                None => match r {
                    Ok(s) => !has_name(parsed_aliases(content@), alias.name@) && s@
                        == added_content(content@, alias@),
                    Err(e) => has_name(parsed_aliases(content@), alias.name@) && (
                    e matches AppError::AliasExists(n) && n@ == alias.name@),
                },
            },
    {
        match Alias::validate_name(alias.name.as_str()) {
            Err(reason) => Err(AppError::InvalidAliasName(reason)),
            Ok(()) => add_alias_to_content(content, alias),
        }
    }

    /// The text with the alias named `old_name` updated to `alias`.
    /// `InvalidAliasName` when the new name is not valid; otherwise as
    /// `update_alias_in_content`.
    pub fn update_alias(content: &str, old_name: &str, alias: &Alias) -> (r: Result<
        String,
        AppError,
    >)
        ensures
            match name_problem(alias.name@) {
                Some(p) => r matches Err(e) && (e matches AppError::InvalidAliasName(m)
                    && m@ == name_problem_message(p)),
                None => ({
                    let p = parsed_aliases(content@);
                    let q = replace_named(p, old_name@, alias@);
                    let conflict = old_name@ != alias.name@ && count_named(q, alias.name@) > 1;
                    match r {
                        Ok(s) => has_name(p, old_name@) && !conflict && s@ == rebuilt_content(
                            content@,
                            q,
                        ),
                        Err(e) => if !has_name(p, old_name@) {
                            e matches AppError::AliasNotFound(n) && n@ == old_name@
                        } else {
                            conflict && (e matches AppError::AliasExists(n) && n@ == alias.name@)
                        },
                    }
                }),
            },
    {
        match Alias::validate_name(alias.name.as_str()) {
            Err(reason) => Err(AppError::InvalidAliasName(reason)),
            Ok(()) => update_alias_in_content(content, old_name, alias),
        }
    }

    /// The text with the alias named `name` removed; `AliasNotFound` when
    /// there is none.
    pub fn delete_alias(content: &str, name: &str) -> (r: Result<String, AppError>)
        ensures
            ({
                let p = parsed_aliases(content@);
                match r {
                    Ok(s) => has_name(p, name@) && s@ == rebuilt_content(
                        content@,
                        remove_named(p, name@),
                    ),
                    Err(e) => !has_name(p, name@) && (e matches AppError::AliasNotFound(n) && n@
                        == name@),
                }
            }),
    {
        delete_alias_from_content(content, name)
    }

    /// The configuration file of a shell (under the user's home directory).
    pub fn get_config_path(shell_type: &ShellType) -> (r: String)
        ensures
            exists|home: Seq<char>| r@ == crate::shell_type::config_path_under(*shell_type, home),
    {
        shell_type.config_path()
    }

    /// Batch add, with one write of the text for the whole batch: an invalid
    /// name is an error, an existing name (in the text or added earlier in the
    /// batch) is skipped, the rest are appended to the end of the text, which
    /// otherwise stays as it is. Gives the outcome and the text to write back
    /// (`None` when nothing was added).
    pub fn add_aliases_batch(content: &str, aliases: &[Alias]) -> (r: (BatchOutcome, Option<String>))
        ensures
            ({
                let p = parsed_aliases(content@);
                let st = add_batch(p, alias_views(aliases@));
                batch_result(st, r.0, r.1, added_all(content@, batch_added(p, st)))
            }),
            r.0.success_count + r.0.skipped_count + r.0.errors@.len() == aliases@.len(),
    {
        let mut outcome = BatchOutcome::new();
        let mut current = parse_aliases_from_content(content);
        let ghost init = alias_views(current@);
        let mut text = chars_of(content);
        let mut changed = false;
        let mut i: usize = 0;
        while i < aliases.len()
            invariant
                i <= aliases@.len(),
                init == parsed_aliases(content@),
                outcome.success_count + outcome.skipped_count + outcome.errors@.len() == i,
                ({
                    let st = add_batch(init, alias_views(aliases@).take(i as int));
                    &&& alias_views(current@) == st.current
                    &&& init.len() <= st.current.len()
                    &&& text@ == added_all(content@, batch_added(init, st))
                    &&& outcome.success_count == st.success
                    &&& outcome.skipped_count == st.skipped
                    &&& string_views(outcome.errors@) == st.errors
                    &&& changed == st.changed
                }),
            decreases aliases@.len() - i,
        {
            let ghost pre = alias_views(aliases@).take(i as int);
            let ghost cur = alias_views(aliases@).take(i + 1);
            proof {
                assert(cur.drop_last() =~= pre);
                assert(cur.last() == aliases@[i as int]@);
            }
            let a = &aliases[i];
            match Alias::validate_name(a.name.as_str()) {
                Err(reason) => {
                    let ghost e0 = outcome.errors@;
                    let msg = concat4(a.name.as_str(), ": ", "Invalid alias name: ", reason.as_str());
                    outcome.errors.push(msg);
                    assert(string_views(outcome.errors@) =~= string_views(e0).push(msg@));
                },
                Ok(()) => {
                    let n = chars_of(a.name.as_str());
                    if find_alias_named(current.as_slice(), &n).is_some() {
                        outcome.skipped_count = outcome.skipped_count + 1;
                    } else {
                        let ghost c0 = current@;
                        let ghost t0 = text@;
                        let x = a.duplicate();
                        append_alias_chars(&mut text, &x);
                        current.push(x);
                        assert(alias_views(current@) =~= alias_views(c0).push(x@));
                        proof {
                            let cv = alias_views(current@);
                            let added = cv.subrange(init.len() as int, cv.len() as int);
                            assert(added.drop_last() =~= alias_views(c0).subrange(
                                init.len() as int,
                                alias_views(c0).len() as int,
                            ));
                            assert(added.last() == x@);
                            assert(text@ == added_all(content@, added));
                        }
                        outcome.success_count = outcome.success_count + 1;
                        changed = true;
                    }
                },
            }
            i = i + 1;
        }
        assert(alias_views(aliases@).take(aliases@.len() as int) =~= alias_views(aliases@));
        if changed {
            (outcome, Some(string_of(&text)))
        } else {
            (outcome, None)
        }
    }

    /// Batch delete, with one rebuild of the text for the whole batch: a name
    /// that the text does not have is an error, the rest are removed. Gives the
    /// outcome and the text to write back (`None` when nothing was removed).
    pub fn delete_aliases_batch(content: &str, names: &[String]) -> (r: (
        BatchOutcome,
        Option<String>,
    ))
        ensures
            ({
                let st = delete_batch(parsed_aliases(content@), string_views(names@));
                batch_result(st, r.0, r.1, rebuilt_content(content@, st.current))
            }),
            r.0.success_count + r.0.errors@.len() == names@.len(),
            r.0.skipped_count == 0,
    {
        let mut outcome = BatchOutcome::new();
        let existing = parse_aliases_from_content(content);
        let ghost init = alias_views(existing@);
        let mut remaining = parse_aliases_from_content(content);
        let mut changed = false;
        let mut i: usize = 0;
        while i < names.len()
            invariant
                i <= names@.len(),
                init == parsed_aliases(content@),
                init == alias_views(existing@),
                outcome.success_count + outcome.errors@.len() == i,
                outcome.skipped_count == 0,
                ({
                    let st = delete_batch(init, string_views(names@).take(i as int));
                    &&& alias_views(remaining@) == st.current
                    &&& outcome.success_count == st.success
                    &&& st.skipped == 0
                    &&& string_views(outcome.errors@) == st.errors
                    &&& changed == st.changed
                }),
            decreases names@.len() - i,
        {
            let ghost pre = string_views(names@).take(i as int);
            let ghost cur = string_views(names@).take(i + 1);
            proof {
                assert(cur.drop_last() =~= pre);
                assert(cur.last() == names@[i as int]@);
            }
            let name = &names[i];
            let n = chars_of(name.as_str());
            if find_alias_named(existing.as_slice(), &n).is_none() {
                let ghost e0 = outcome.errors@;
                let msg = concat4(name.as_str(), ": ", "Alias not found: ", name.as_str());
                outcome.errors.push(msg);
                assert(string_views(outcome.errors@) =~= string_views(e0).push(msg@));
            } else {
                remaining = remove_named_vec(remaining, name.as_str());
                outcome.success_count = outcome.success_count + 1;
                changed = true;
            }
            i = i + 1;
        }
        assert(string_views(names@).take(names@.len() as int) =~= string_views(names@));
        if changed {
            let new_content = rebuild_config_content(content, remaining.as_slice());
            (outcome, Some(new_content))
        } else {
            (outcome, None)
        }
    }

    /// Batch update, with one rebuild of the text for the whole batch: each
    /// entry updates, in place, the command and tags of the alias with its
    /// name; an invalid name or a name that the text does not have is an error.
    /// Gives the outcome and the text to write back (`None` when no alias
    /// changed).
    pub fn update_aliases_batch(content: &str, aliases: &[Alias]) -> (r: (
        BatchOutcome,
        Option<String>,
    ))
        ensures
            ({
                let st = update_batch(parsed_aliases(content@), alias_views(aliases@));
                batch_result(st, r.0, r.1, rebuilt_content(content@, st.current))
            }),
            r.0.success_count + r.0.errors@.len() == aliases@.len(),
            r.0.skipped_count == 0,
    {
        let mut outcome = BatchOutcome::new();
        let mut current = parse_aliases_from_content(content);
        let ghost init = alias_views(current@);
        let mut changed = false;
        let mut i: usize = 0;
        while i < aliases.len()
            invariant
                i <= aliases@.len(),
                init == parsed_aliases(content@),
                outcome.success_count + outcome.errors@.len() == i,
                outcome.skipped_count == 0,
                ({
                    let st = update_batch(init, alias_views(aliases@).take(i as int));
                    &&& alias_views(current@) == st.current
                    &&& outcome.success_count == st.success
                    &&& st.skipped == 0
                    &&& string_views(outcome.errors@) == st.errors
                    &&& changed == st.changed
                }),
            decreases aliases@.len() - i,
        {
            let ghost pre = alias_views(aliases@).take(i as int);
            let ghost cur = alias_views(aliases@).take(i + 1);
            proof {
                assert(cur.drop_last() =~= pre);
                assert(cur.last() == aliases@[i as int]@);
            }
            let a = &aliases[i];
            match Alias::validate_name(a.name.as_str()) {
                Err(reason) => {
                    let ghost e0 = outcome.errors@;
                    let msg = concat4(a.name.as_str(), ": ", "Invalid alias name: ", reason.as_str());
                    outcome.errors.push(msg);
                    assert(string_views(outcome.errors@) =~= string_views(e0).push(msg@));
                },
                Ok(()) => {
                    let n = chars_of(a.name.as_str());
                    proof {
                        lemma_index_named(alias_views(current@), n@);
                    }
                    match find_alias_named(current.as_slice(), &n) {
                        Some(k) => {
                            let same = current[k].command == a.command && strings_equal(
                                &current[k].tags,
                                &a.tags,
                            );
                            if !same {
                                let ghost c0 = alias_views(current@);
                                let x = Alias {
                                    name: current[k].name.clone(),
                                    command: a.command.clone(),
                                    tags: crate::alias::clone_strings(&a.tags),
                                };
                                assert(x@ =~= updated_entry(c0[k as int], a@));
                                current.set(k, x);
                                assert(alias_views(current@) =~= c0.update(k as int, x@));
                                changed = true;
                            }
                            outcome.success_count = outcome.success_count + 1;
                        },
                        None => {
                            let ghost e0 = outcome.errors@;
                            let msg = concat4(
                                a.name.as_str(),
                                ": ",
                                "Alias not found: ",
                                a.name.as_str(),
                            );
                            outcome.errors.push(msg);
                            assert(string_views(outcome.errors@) =~= string_views(e0).push(msg@));
                        },
                    }
                },
            }
            i = i + 1;
        }
        assert(alias_views(aliases@).take(aliases@.len() as int) =~= alias_views(aliases@));
        if changed {
            let new_content = rebuild_config_content(content, current.as_slice());
            (outcome, Some(new_content))
        } else {
            (outcome, None)
        }
    }

    /// The program and arguments that source a configuration file for a
    /// shell: `bash -c "source '<path>'"`, `zsh -i -c ...`, `fish -c ...`.
    pub fn source_command(config_path: &str, shell_type: &ShellType) -> (r: (
        &'static str,
        Vec<String>,
    ))
        ensures
            ({
                let cmd = "source '"@ + config_path@ + "'"@;
                match *shell_type {
                    ShellType::Bash => r.0@ == "bash"@ && string_views(r.1@) == seq![
                        "-c"@,
                        cmd,
                    ],
                    ShellType::Zsh => r.0@ == "zsh"@ && string_views(r.1@) == seq![
                        "-i"@,
                        "-c"@,
                        cmd,
                    ],
                    ShellType::Fish => r.0@ == "fish"@ && string_views(r.1@) == seq![
                        "-c"@,
                        cmd,
                    ],
                }
            }),
    {
        let cmd = crate::error::concat3("source '", config_path, "'");
        let mut args: Vec<String> = Vec::new();
        let program = match shell_type {
            ShellType::Bash => "bash",
            ShellType::Zsh => {
                args.push(String::from_str("-i"));
                "zsh"
            },
            ShellType::Fish => "fish",
        };
        args.push(String::from_str("-c"));
        args.push(cmd);
        proof {
            match *shell_type {
                ShellType::Zsh => {
                    assert(string_views(args@) =~= seq!["-i"@, "-c"@, cmd@]);
                },
                _ => {
                    assert(string_views(args@) =~= seq!["-c"@, cmd@]);
                },
            }
        }
        (program, args)
    }
}

} // verus!
