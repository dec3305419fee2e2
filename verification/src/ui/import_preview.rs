//! The preview of an import: the aliases read from a file are merged by name
//! (a later entry replaces an earlier one) and each is then classed against
//! the aliases already configured as new, conflicting, unchanged or invalid.
use vstd::prelude::*;

use crate::alias::{alias_views, name_problem, strings_equal, Alias, AliasView};
use crate::alias_parser::{find_alias_named, index_named, lemma_index_named, lemma_index_named_is};
use crate::text::{chars_eq, chars_of, trim, trim_bounds};
use crate::ui::utils::{name_invalid_reason, name_problem_key};

verus! {

/// The class of an entry of the import preview.
#[derive(Debug, Clone, Copy, PartialEq, Eq, Structural)]
pub enum ImportStatus {
    /// No alias of that name is configured.
    New,
    /// An alias of that name is configured with other contents; the user may
    /// choose to overwrite it.
    Conflict,
    /// An alias of that name is configured with the same contents.
    Unchanged,
    /// The name or the command fails validation; it cannot be imported.
    Invalid,
}

/// One row of the import preview.
#[derive(Debug)]
pub struct ImportRow {
    pub alias: Alias,
    pub status: ImportStatus,
    /// The translation key of the reason an entry is invalid.
    pub reason_key: Option<&'static str>,
    /// Whether the user chose to overwrite a conflicting alias.
    pub overwrite: bool,
}

/// One step of the merge: an unnamed entry is kept as it is; a named one
/// replaces the entry of the same name, counting one merged duplicate, or is
/// appended.
pub open spec fn merge_step(acc: (Seq<AliasView>, nat), a: AliasView) -> (Seq<AliasView>, nat) {
    if a.name.len() == 0 {
        (acc.0.push(a), acc.1)
    } else {
        match index_named(acc.0, a.name) {
            Some(k) => (acc.0.update(k, a), acc.1 + 1),
            None => (acc.0.push(a), acc.1),
        }
    }
}

/// The entries of `p` merged by name, in order, with the number of entries
/// that replaced an earlier one.
pub open spec fn merged(p: Seq<AliasView>) -> (Seq<AliasView>, nat)
    decreases p.len(),
{
    if p.len() == 0 {
        (Seq::empty(), 0)
    } else {
        merge_step(merged(p.drop_last()), p.last())
    }
}

/// The class of an entry against the configured aliases, with the
/// translation key of the reason when it is invalid.
pub open spec fn row_class(a: AliasView, existing: Seq<AliasView>) -> (
    ImportStatus,
    Option<Seq<char>>,
) {
    match name_problem(a.name) {
        Some(p) => (ImportStatus::Invalid, Some(name_problem_key(p))),
        None => if trim(a.command).len() == 0 {
            (ImportStatus::Invalid, Some("validate.command_empty"@))
        } else {
            match index_named(existing, a.name) {
                None => (ImportStatus::New, None),
                Some(k) => if existing[k].command == a.command && existing[k].tags == a.tags {
                    (ImportStatus::Unchanged, None)
                } else {
                    (ImportStatus::Conflict, None)
                },
            }
        },
    }
}

/// The classing law: an entry with an invalid name or a blank command is
/// invalid; otherwise it is new when no configured alias has its name, and
/// against the first configured alias with its name it is unchanged exactly
/// when that alias has the same command and the same tags, and conflicting
/// exactly when the command or the tags differ.
pub proof fn lemma_row_class_law(a: AliasView, existing: Seq<AliasView>, k: int)
    ensures
        (name_problem(a.name) is Some || trim(a.command).len() == 0) ==> row_class(a, existing).0
            == ImportStatus::Invalid,
        name_problem(a.name) is None && trim(a.command).len() > 0 && (forall|j: int|
            0 <= j < existing.len() ==> #[trigger] existing[j].name != a.name) ==> row_class(
            a,
            existing,
        ).0 == ImportStatus::New,
        name_problem(a.name) is None && trim(a.command).len() > 0 && 0 <= k < existing.len()
            && existing[k].name == a.name && (forall|j: int|
            0 <= j < k ==> #[trigger] existing[j].name != a.name) ==> {
            &&& (row_class(a, existing).0 == ImportStatus::Unchanged <==> (existing[k].command
                == a.command && existing[k].tags == a.tags))
            &&& (row_class(a, existing).0 == ImportStatus::Conflict <==> (existing[k].command
                != a.command || existing[k].tags != a.tags))
        },
{
    if forall|j: int| 0 <= j < existing.len() ==> #[trigger] existing[j].name != a.name {
        lemma_index_named_is(existing, a.name, None);
    }
    if 0 <= k < existing.len() && existing[k].name == a.name && (forall|j: int|
        0 <= j < k ==> #[trigger] existing[j].name != a.name) {
        lemma_index_named_is(existing, a.name, Some(k));
    }
}

/// The view of an optional static text.
pub open spec fn key_view(k: Option<&'static str>) -> Option<Seq<char>> {
    match k {
        Some(s) => Some(s@),
        None => None,
    }
}

/// `p[j]` is the last entry of `p` with its name.
pub open spec fn is_last_named(p: Seq<AliasView>, j: int) -> bool {
    forall|j2: int| j < j2 < p.len() ==> #[trigger] p[j2].name != p[j].name
}

/// No two named entries of `m` share a name.
pub open spec fn distinct_names(m: Seq<AliasView>) -> bool {
    forall|i: int, j: int|
        0 <= i < j < m.len() && m[i].name.len() > 0 ==> #[trigger] m[i].name != #[trigger] m[j].name
}

/// Each named entry of `m` is the last entry of `p` with its name.
pub open spec fn each_from_last(p: Seq<AliasView>, m: Seq<AliasView>) -> bool {
    forall|k: int|
        0 <= k < m.len() && (#[trigger] m[k]).name.len() > 0 ==> exists|j: int|
            0 <= j < p.len() && #[trigger] p[j] == m[k] && is_last_named(p, j)
}

/// Every name of `p` is the name of an entry of `m`.
pub open spec fn covers_names(p: Seq<AliasView>, m: Seq<AliasView>) -> bool {
    forall|j: int|
        0 <= j < p.len() && (#[trigger] p[j]).name.len() > 0 ==> exists|k: int|
            0 <= k < m.len() && #[trigger] m[k].name == p[j].name
}

proof fn lemma_merge_count(p: Seq<AliasView>)
    ensures
        merged(p).0.len() + merged(p).1 == p.len(),
    decreases p.len(),
{
    if p.len() > 0 {
        lemma_merge_count(p.drop_last());
        lemma_index_named(merged(p.drop_last()).0, p.last().name);
    }
}

/// The merge keeps the name at every old position and adds at most the
/// name of the new entry.
proof fn lemma_step_names(m0: Seq<AliasView>, a: AliasView, d: nat)
    ensures
        ({
            let m = merge_step((m0, d), a).0;
            &&& m0.len() <= m.len() <= m0.len() + 1
            &&& forall|k: int| 0 <= k < m0.len() ==> #[trigger] m[k].name == m0[k].name
            &&& m.len() == m0.len() + 1 ==> m[m0.len() as int] == a
            &&& forall|k: int| 0 <= k < m0.len() && m[k] != m0[k] ==> m[k] == a
            &&& exists|k: int| 0 <= k < m.len() && #[trigger] m[k] == a
        }),
{
    let m = merge_step((m0, d), a).0;
    lemma_index_named(m0, a.name);
    if a.name.len() > 0 {
        match index_named(m0, a.name) {
            Some(pos) => {
                assert(m[pos] == a);
            },
            None => {
                assert(m[m0.len() as int] == a);
            },
        }
    } else {
        assert(m[m0.len() as int] == a);
    }
}

proof fn lemma_merge_distinct(p: Seq<AliasView>)
    ensures
        distinct_names(merged(p).0),
    decreases p.len(),
{
    if p.len() > 0 {
        let m0 = merged(p.drop_last()).0;
        let a = p.last();
        lemma_merge_distinct(p.drop_last());
        lemma_index_named(m0, a.name);
        lemma_step_names(m0, a, merged(p.drop_last()).1);
    }
}

proof fn lemma_merge_from_last(p: Seq<AliasView>)
    ensures
        each_from_last(p, merged(p).0),
    decreases p.len(),
{
    if p.len() > 0 {
        let q = p.drop_last();
        let a = p.last();
        let n = p.len() - 1;
        lemma_merge_from_last(q);
        lemma_merge_distinct(q);
        let m0 = merged(q).0;
        let m = merged(p).0;
        lemma_index_named(m0, a.name);
        lemma_step_names(m0, a, merged(q).1);
        assert forall|k: int|
            0 <= k < m.len() && (#[trigger] m[k]).name.len() > 0 implies exists|j: int|
                0 <= j < p.len() && #[trigger] p[j] == m[k] && is_last_named(p, j) by {
            if m[k] == a {
                assert(p[n] == m[k]);
                assert(is_last_named(p, n));
            } else {
                let j = choose|j: int|
                    0 <= j < q.len() && #[trigger] q[j] == m0[k] && is_last_named(q, j);
                if a.name.len() > 0 {
                    match index_named(m0, a.name) {
                        Some(pos) => {
                            if k > pos {
                                assert(m0[pos].name != m0[k].name);
                            }
                        },
                        None => {},
                    }
                }
                assert(m0[k].name != a.name);
                assert(p[j] == m[k]);
                assert forall|j2: int| j < j2 < p.len() implies #[trigger] p[j2].name != p[j].name by {
                    if j2 < n {
                        assert(p[j2] == q[j2]);
                    }
                }
            }
        }
    }
}

proof fn lemma_merge_covers(p: Seq<AliasView>)
    ensures
        covers_names(p, merged(p).0),
    decreases p.len(),
{
    if p.len() > 0 {
        let q = p.drop_last();
        let a = p.last();
        let n = p.len() - 1;
        lemma_merge_covers(q);
        let m0 = merged(q).0;
        let m = merged(p).0;
        lemma_step_names(m0, a, merged(q).1);
        assert forall|j: int|
            0 <= j < p.len() && (#[trigger] p[j]).name.len() > 0 implies exists|k: int|
                0 <= k < m.len() && #[trigger] m[k].name == p[j].name by {
            if j < n {
                assert(p[j] == q[j]);
                let k = choose|k: int| 0 <= k < m0.len() && #[trigger] m0[k].name == q[j].name;
                assert(m[k].name == p[j].name);
            } else {
                let k = choose|k: int| 0 <= k < m.len() && #[trigger] m[k] == a;
                assert(m[k].name == p[j].name);
            }
        }
    }
}

/// What the merge keeps: the preview and the merged duplicates together
/// account for the whole input, no two named entries of the preview share a
/// name, each named entry of the preview is the last input entry of its name,
/// and every name of the input is in the preview.
pub proof fn lemma_merge_by_name(p: Seq<AliasView>)
    ensures
        merged(p).0.len() + merged(p).1 == p.len(),
        distinct_names(merged(p).0),
        each_from_last(p, merged(p).0),
        covers_names(p, merged(p).0),
{
    lemma_merge_count(p);
    lemma_merge_distinct(p);
    lemma_merge_from_last(p);
    lemma_merge_covers(p);
}

/// Builds the import preview: the entries are merged by name (a later entry
/// replaces an earlier one of the same name; unnamed entries are kept for
/// validation to reject) and each merged entry is classed against
/// `existing`. Returns the rows and the number of entries merged away.
pub fn build_import_preview(parsed: Vec<Alias>, existing: &[Alias]) -> (r: (Vec<ImportRow>, usize))
    ensures
        r.0@.len() == merged(alias_views(parsed@)).0.len(),
        r.1 == merged(alias_views(parsed@)).1,
        forall|i: int|
            0 <= i < r.0@.len() ==> {
                let m = merged(alias_views(parsed@)).0[i];
                let c = row_class(m, alias_views(existing@));
                &&& (#[trigger] r.0@[i]).alias@ == m
                &&& r.0@[i].status == c.0
                &&& key_view(r.0@[i].reason_key) == c.1
                &&& !r.0@[i].overwrite
            },
{
    let ghost pv = alias_views(parsed@);
    let mut m: Vec<Alias> = Vec::new();
    let mut dup: usize = 0;
    let mut i: usize = 0;
    while i < parsed.len()
        invariant
            i <= parsed@.len(),
            pv == alias_views(parsed@),
            (alias_views(m@), dup as nat) == merged(pv.take(i as int)),
            m@.len() + dup == i,
        decreases parsed@.len() - i,
    {
        proof {
            assert(pv.take(i + 1).drop_last() =~= pv.take(i as int));
            assert(pv.take(i + 1).last() == pv[i as int]);
        }
        let a = parsed[i].duplicate();
        let ghost m0 = alias_views(m@);
        let n = chars_of(a.name.as_str());
        proof {
            lemma_index_named(m0, n@);
        }
        if n.len() == 0 {
            m.push(a);
            assert(alias_views(m@) =~= m0.push(pv[i as int]));
        } else {
            match find_alias_named(&m, &n) {
                Some(pos) => {
                    m.set(pos, a);
                    assert(alias_views(m@) =~= m0.update(pos as int, pv[i as int]));
                    dup = dup + 1;
                },
                None => {
                    m.push(a);
                    assert(alias_views(m@) =~= m0.push(pv[i as int]));
                },
            }
        }
        i = i + 1;
    }
    assert(pv.take(parsed@.len() as int) =~= pv);
    let ghost mv = alias_views(m@);
    let ghost ev = alias_views(existing@);
    let mut rows: Vec<ImportRow> = Vec::new();
    let mut k: usize = 0;
    while k < m.len()
        invariant
            k <= m@.len(),
            mv == alias_views(m@),
            ev == alias_views(existing@),
            rows@.len() == k,
            forall|j: int|
                0 <= j < k ==> {
                    let c = row_class(mv[j], ev);
                    &&& (#[trigger] rows@[j]).alias@ == mv[j]
                    &&& rows@[j].status == c.0
                    &&& key_view(rows@[j].reason_key) == c.1
                    &&& !rows@[j].overwrite
                },
        decreases m@.len() - k,
    {
        let a = m[k].duplicate();
        let ghost av = mv[k as int];
        let row = match name_invalid_reason(a.name.as_str()) {
            Some(key) => ImportRow {
                alias: a,
                status: ImportStatus::Invalid,
                reason_key: Some(key),
                overwrite: false,
            },
            None => {
                let cmd = chars_of(a.command.as_str());
                let (lo, hi) = trim_bounds(&cmd);
                if lo == hi {
                    ImportRow {
                        alias: a,
                        status: ImportStatus::Invalid,
                        reason_key: Some("validate.command_empty"),
                        overwrite: false,
                    }
                } else {
                    let n = chars_of(a.name.as_str());
                    proof {
                        lemma_index_named(ev, n@);
                    }
                    match find_alias_named(existing, &n) {
                        None => ImportRow {
                            alias: a,
                            status: ImportStatus::New,
                            reason_key: None,
                            overwrite: false,
                        },
                        Some(e) => {
                            let same = chars_eq(
                                &chars_of(existing[e].command.as_str()),
                                &cmd,
                            ) && strings_equal(&existing[e].tags, &a.tags);
                            let status = if same {
                                ImportStatus::Unchanged
                            } else {
                                ImportStatus::Conflict
                            };
                            ImportRow { alias: a, status, reason_key: None, overwrite: false }
                        },
                    }
                }
            },
        };
        proof {
            reveal_strlit("validate.command_empty");
        }
        rows.push(row);
        k = k + 1;
    }
    (rows, dup)
}

/// The aliases of the preview to add: those of the new rows, in order.
pub open spec fn aliases_to_add(rows: Seq<ImportRow>) -> Seq<AliasView>
    decreases rows.len(),
{
    if rows.len() == 0 {
        Seq::empty()
    } else if rows.last().status == ImportStatus::New {
        aliases_to_add(rows.drop_last()).push(rows.last().alias@)
    } else {
        aliases_to_add(rows.drop_last())
    }
}

/// The aliases of the preview to overwrite: those of the conflicting rows
/// that the user chose to overwrite, in order.
pub open spec fn aliases_to_overwrite(rows: Seq<ImportRow>) -> Seq<AliasView>
    decreases rows.len(),
{
    if rows.len() == 0 {
        Seq::empty()
    } else if rows.last().status == ImportStatus::Conflict && rows.last().overwrite {
        aliases_to_overwrite(rows.drop_last()).push(rows.last().alias@)
    } else {
        aliases_to_overwrite(rows.drop_last())
    }
}

/// What confirming the preview does: the new aliases are added in one
/// batch, the conflicting ones chosen for overwriting are updated in
/// another; unchanged and invalid rows are left out.
pub fn import_plan(rows: &[ImportRow]) -> (r: (Vec<Alias>, Vec<Alias>))
    ensures
        alias_views(r.0@) == aliases_to_add(rows@),
        alias_views(r.1@) == aliases_to_overwrite(rows@),
{
    let mut add: Vec<Alias> = Vec::new();
    let mut over: Vec<Alias> = Vec::new();
    let mut i: usize = 0;
    while i < rows.len()
        invariant
            i <= rows@.len(),
            alias_views(add@) == aliases_to_add(rows@.take(i as int)),
            alias_views(over@) == aliases_to_overwrite(rows@.take(i as int)),
        decreases rows@.len() - i,
    {
        proof {
            assert(rows@.take(i + 1).drop_last() =~= rows@.take(i as int));
            assert(rows@.take(i + 1).last() == rows@[i as int]);
        }
        let ghost a0 = alias_views(add@);
        let ghost o0 = alias_views(over@);
        let row = &rows[i];
        if row.status == ImportStatus::New {
            add.push(row.alias.duplicate());
            assert(alias_views(add@) =~= a0.push(row.alias@));
        } else if row.status == ImportStatus::Conflict && row.overwrite {
            over.push(row.alias.duplicate());
            assert(alias_views(over@) =~= o0.push(row.alias@));
        }
        i = i + 1;
    }
    assert(rows@.take(rows@.len() as int) =~= rows@);
    (add, over)
}

/// A row with its overwrite choice flipped.
pub open spec fn flipped(r: ImportRow) -> ImportRow {
    ImportRow { overwrite: !r.overwrite, ..r }
}

/// Flips the overwrite choice of the row at `idx`; an index past the end
/// changes nothing.
pub fn toggle_overwrite(rows: &mut Vec<ImportRow>, idx: usize)
    ensures
        final(rows)@ == if idx < old(rows)@.len() {
            old(rows)@.update(idx as int, flipped(old(rows)@[idx as int]))
        } else {
            old(rows)@
        },
{
    if idx < rows.len() {
        let mut row = rows.remove(idx);
        row.overwrite = !row.overwrite;
        rows.insert(idx, row);
        assert(rows@ =~= old(rows)@.update(idx as int, flipped(old(rows)@[idx as int])));
    }
}

/// A row chosen for overwriting if it conflicts.
pub open spec fn conflict_chosen(r: ImportRow) -> ImportRow {
    if r.status == ImportStatus::Conflict {
        ImportRow { overwrite: true, ..r }
    } else {
        r
    }
}

/// Chooses every conflicting row for overwriting; other rows are left as
/// they are.
pub fn overwrite_all_conflicts(rows: &mut Vec<ImportRow>)
    ensures
        final(rows)@ == old(rows)@.map_values(|r: ImportRow| conflict_chosen(r)),
{
    let ghost before = rows@;
    let n = rows.len();
    let mut i: usize = 0;
    while i < n
        invariant
            n == before.len(),
            rows@.len() == n,
            i <= n,
            forall|j: int| 0 <= j < i ==> rows@[j] == conflict_chosen(#[trigger] before[j]),
            forall|j: int| i <= j < n ==> rows@[j] == before[j],
        decreases n - i,
    {
        let mut row = rows.remove(i);
        if row.status == ImportStatus::Conflict {
            row.overwrite = true;
        }
        rows.insert(i, row);
        i = i + 1;
    }
    assert(rows@ =~= before.map_values(|r: ImportRow| conflict_chosen(r)));
}

} // verus!
