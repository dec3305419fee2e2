//! Backups of the shell configuration file.
//!
//! A backup is taken before every change; backups live in the `backups/`
//! directory of the application data directory, with an index
//! `backups/backups.json` and one `<id>.bak` file each. At most
//! [`MAX_BACKUPS`] are kept, the oldest going first.
use vstd::prelude::*;

use crate::error::{concat2, AppError};
use crate::paths::{join, join_path};
use crate::text::{chars_eq, chars_of, decimal, decimal_string};

verus! {

/// The most backups kept.
pub const MAX_BACKUPS: usize = 20;

/// One backup.
#[derive(Debug, Clone)]
pub struct BackupEntry {
    /// Unique identifier (milliseconds timestamp and process id).
    pub id: String,
    /// The configuration file that was backed up.
    pub original_path: String,
    /// Creation time (Unix milliseconds).
    pub created_at: u64,
    /// Size of the backed-up content in bytes.
    pub size: u64,
}

/// The mathematical value of a [`BackupEntry`].
pub struct BackupView {
    pub id: Seq<char>,
    pub original_path: Seq<char>,
    pub created_at: u64,
    pub size: u64,
}

impl View for BackupEntry {
    type V = BackupView;

    open spec fn view(&self) -> BackupView {
        BackupView {
            id: self.id@,
            original_path: self.original_path@,
            created_at: self.created_at,
            size: self.size,
        }
    }
}

/// The views of a sequence of backups.
pub open spec fn backup_views(v: Seq<BackupEntry>) -> Seq<BackupView> {
    v.map_values(|e: BackupEntry| e@)
}

impl BackupEntry {
    /// A copy of this entry.
    pub fn duplicate(&self) -> (r: BackupEntry)
        ensures
            r@ == self@,
    {
        BackupEntry {
            id: self.id.clone(),
            original_path: self.original_path.clone(),
            created_at: self.created_at,
            size: self.size,
        }
    }
}

/// The backup directory in the application data directory.
pub open spec fn backup_dir_path(app_data_dir: Seq<char>) -> Seq<char> {
    join_path(app_data_dir, "backups"@)
}

/// The backup directory: `<app data>/backups`.
pub fn backup_dir(app_data_dir: &str) -> (r: String)
    ensures
        r@ == backup_dir_path(app_data_dir@),
{
    join(app_data_dir, "backups")
}

/// The backup index: `<app data>/backups/backups.json`.
pub fn index_path(app_data_dir: &str) -> (r: String)
    ensures
        r@ == join_path(backup_dir_path(app_data_dir@), "backups.json"@),
{
    let d = backup_dir(app_data_dir);
    join(d.as_str(), "backups.json")
}

/// The content file of a backup: `<app data>/backups/<id>.bak`.
pub fn backup_file_path(app_data_dir: &str, id: &str) -> (r: String)
    ensures
        r@ == join_path(backup_dir_path(app_data_dir@), id@ + ".bak"@),
{
    let d = backup_dir(app_data_dir);
    let f = concat2(id, ".bak");
    join(d.as_str(), f.as_str())
}

/// The identifier of a backup taken at `now_ms` by process `pid`:
/// `<now_ms>-<pid>`.
pub fn backup_id(now_ms: u64, pid: u32) -> (r: String)
    ensures
        r@ == decimal(now_ms as nat) + "-"@ + decimal(pid as nat),
{
    let mut r = decimal_string(now_ms);
    r.append("-");
    r.append(decimal_string(pid as u64).as_str());
    r
}

/// The entry of a backup of `config_path` with `size` bytes, taken at `now_ms`
/// Whether a configuration file is backed up before a change: only when it
/// exists (`content` is its bytes) and is not empty.
pub fn should_back_up(content: Option<&[u8]>) -> (r: bool)
    ensures
        r == (content matches Some(c) && c@.len() > 0),
{
    match content {
        Some(c) => c.len() > 0,
        None => false,
    }
}

/// by process `pid`.
pub fn new_entry(config_path: &str, now_ms: u64, pid: u32, size: u64) -> (r: BackupEntry)
    ensures
        r.id@ == decimal(now_ms as nat) + "-"@ + decimal(pid as nat),
        r.original_path@ == config_path@,
        r.created_at == now_ms,
        r.size == size,
{
    BackupEntry {
        id: backup_id(now_ms, pid),
        original_path: String::from_str(config_path),
        created_at: now_ms,
        size,
    }
}

/// How many of `n` entries are dropped to keep at most `MAX_BACKUPS`.
pub open spec fn excess(n: int) -> int {
    if n > MAX_BACKUPS {
        n - MAX_BACKUPS
    } else {
        0
    }
}

/// The index after adding a new entry: the old entries and the new one, less
/// the oldest ones beyond `MAX_BACKUPS`; and the identifiers of the dropped
/// ones, whose files are to be removed.
pub fn add_to_index(entries: Vec<BackupEntry>, entry: BackupEntry) -> (r: (
    Vec<BackupEntry>,
    Vec<String>,
))
    ensures
        ({
            let all = backup_views(entries@).push(entry@);
            let k = excess(all.len() as int);
            &&& backup_views(r.0@) == all.subrange(k, all.len() as int)
            &&& crate::alias::string_views(r.1@) == all.subrange(0, k).map_values(
                |e: BackupView| e.id,
            )
        }),
        r.0@.len() <= MAX_BACKUPS,
{
    let ghost all = backup_views(entries@).push(entry@);
    let mut all_entries = entries;
    all_entries.push(entry);
    assert(backup_views(all_entries@) =~= all);
    let n = all_entries.len();
    let k = if n > MAX_BACKUPS {
        n - MAX_BACKUPS
    } else {
        0
    };
    let mut kept: Vec<BackupEntry> = Vec::new();
    let mut removed: Vec<String> = Vec::new();
    let mut i: usize = 0;
    while i < n
        invariant
            n == all_entries@.len() == all.len(),
            backup_views(all_entries@) == all,
            k as int == excess(n as int),
            i <= n,
            i <= k ==> backup_views(kept@).len() == 0 && crate::alias::string_views(removed@)
                == all.subrange(0, i as int).map_values(|e: BackupView| e.id),
            i > k ==> backup_views(kept@) == all.subrange(k as int, i as int)
                && crate::alias::string_views(removed@) == all.subrange(0, k as int).map_values(
                |e: BackupView| e.id,
            ),
        decreases n - i,
    {
        let ghost k0 = kept@;
        let ghost r0 = removed@;
        assert(all[i as int] == all_entries@[i as int]@);
        if i < k {
            let id = all_entries[i].id.clone();
            removed.push(id);
            assert(crate::alias::string_views(removed@) =~= crate::alias::string_views(r0).push(
                id@,
            ));
            assert(all.subrange(0, i + 1).map_values(|e: BackupView| e.id) =~= all.subrange(
                0,
                i as int,
            ).map_values(|e: BackupView| e.id).push(all[i as int].id));
        } else {
            let x = all_entries[i].duplicate();
            kept.push(x);
            assert(backup_views(kept@) =~= backup_views(k0).push(x@));
            assert(all.subrange(k as int, i + 1) =~= all.subrange(k as int, i as int).push(
                all[i as int],
            ));
        }
        i = i + 1;
    }
    proof {
        if n <= k {
            assert(all.subrange(k as int, n as int) =~= Seq::<BackupView>::empty());
        }
    }
    (kept, removed)
}

/// Backups ordered newest first: each is no older than the next.
pub open spec fn newest_first(v: Seq<BackupView>) -> bool {
    forall|i: int, j: int| 0 <= i < j < v.len() ==> v[i].created_at >= v[j].created_at
}

/// The backups of `v` created at time `t`, in order.
pub open spec fn created_at_time(v: Seq<BackupView>, t: u64) -> Seq<BackupView>
    decreases v.len(),
{
    if v.len() == 0 {
        Seq::empty()
    } else if v.last().created_at == t {
        created_at_time(v.drop_last(), t).push(v.last())
    } else {
        created_at_time(v.drop_last(), t)
    }
}

proof fn lemma_created_at_append(a: Seq<BackupView>, b: Seq<BackupView>, t: u64)
    ensures
        created_at_time(a + b, t) == created_at_time(a, t) + created_at_time(b, t),
    decreases b.len(),
{
    if b.len() == 0 {
        assert(a + b =~= a);
        assert(created_at_time(a, t) + created_at_time(b, t) =~= created_at_time(a, t));
    } else {
        lemma_created_at_append(a, b.drop_last(), t);
        assert((a + b).drop_last() =~= a + b.drop_last());
        assert((a + b).last() == b.last());
        if b.last().created_at == t {
            assert((created_at_time(a, t) + created_at_time(b.drop_last(), t)).push(b.last())
                =~= created_at_time(a, t) + created_at_time(b.drop_last(), t).push(b.last()));
        }
    }
}

proof fn lemma_created_at_none(v: Seq<BackupView>, t: u64)
    requires
        forall|i: int| 0 <= i < v.len() ==> (#[trigger] v[i]).created_at != t,
    ensures
        created_at_time(v, t) == Seq::<BackupView>::empty(),
    decreases v.len(),
{
    if v.len() > 0 {
        assert forall|i: int| 0 <= i < v.drop_last().len() implies (
        #[trigger] v.drop_last()[i]).created_at != t by {
            assert(v.drop_last()[i] == v[i]);
        }
        lemma_created_at_none(v.drop_last(), t);
        assert(v[v.len() - 1] == v.last());
    }
}

/// Inserting `x` after every entry no older than it keeps, for every time,
/// the entries of that time in order, with `x` last among its own.
proof fn lemma_insert_stable(o: Seq<BackupView>, j: int, x: BackupView, t: u64)
    requires
        0 <= j <= o.len(),
        forall|i: int| 0 <= i < j ==> (#[trigger] o[i]).created_at >= x.created_at,
        forall|i: int| j <= i < o.len() ==> (#[trigger] o[i]).created_at < x.created_at,
    ensures
        created_at_time(o.insert(j, x), t) == if x.created_at == t {
            created_at_time(o, t).push(x)
        } else {
            created_at_time(o, t)
        },
{
    let a = o.take(j);
    let b = o.skip(j);
    assert(o =~= a + b);
    assert(o.insert(j, x) =~= a.push(x) + b);
    lemma_created_at_append(a.push(x), b, t);
    lemma_created_at_append(a, b, t);
    assert(a.push(x).drop_last() =~= a);
    if x.created_at == t {
        assert forall|i: int| 0 <= i < b.len() implies (#[trigger] b[i]).created_at != t by {
            assert(b[i] == o[j + i]);
        }
        lemma_created_at_none(b, t);
        assert(created_at_time(a, t).push(x) + Seq::<BackupView>::empty() =~= (created_at_time(
            a,
            t,
        ) + Seq::<BackupView>::empty()).push(x));
    }
}

/// The backups, newest first (a stable order: backups created at the same
/// time keep their order).
pub fn list_sorted(entries: Vec<BackupEntry>) -> (r: Vec<BackupEntry>)
    ensures
        newest_first(backup_views(r@)),
        backup_views(r@).to_multiset() == backup_views(entries@).to_multiset(),
        forall|t: u64| created_at_time(backup_views(r@), t) == created_at_time(
            backup_views(entries@),
            t,
        ),
{
    broadcast use vstd::seq_lib::to_multiset_insert, vstd::seq_lib::to_multiset_build;

    let mut out: Vec<BackupEntry> = Vec::new();
    let mut i: usize = 0;
    assert(backup_views(out@) =~= backup_views(entries@).take(0));
    while i < entries.len()
        invariant
            i <= entries@.len(),
            newest_first(backup_views(out@)),
            backup_views(out@).to_multiset() == backup_views(entries@).take(
                i as int,
            ).to_multiset(),
            forall|t: u64| created_at_time(backup_views(out@), t) == created_at_time(
                backup_views(entries@).take(i as int),
                t,
            ),
        decreases entries@.len() - i,
    {
        let x = entries[i].duplicate();
        let key = x.created_at;
        let mut j: usize = 0;
        while j < out.len() && out[j].created_at >= key
            invariant
                j <= out@.len(),
                forall|t: int| 0 <= t < j ==> out@[t].created_at >= key,
            decreases out@.len() - j,
        {
            j = j + 1;
        }
        let ghost o0 = backup_views(out@);
        proof {
            assert forall|t: int| j <= t < o0.len() implies o0[t].created_at < key by {
                assert(o0[j as int].created_at < key);
                assert(newest_first(o0));
                if t > j {
                    assert(o0[j as int].created_at >= o0[t].created_at);
                }
            }
        }
        out.insert(j, x);
        proof {
            assert(backup_views(out@) =~= o0.insert(j as int, x@));
            assert(backup_views(entries@).take(i + 1) =~= backup_views(entries@).take(
                i as int,
            ).push(x@));
            assert(entries@[i as int]@ == x@);
            vstd::seq_lib::to_multiset_insert(o0, j as int, x@);
            vstd::seq_lib::to_multiset_build(backup_views(entries@).take(i as int), x@);
            assert forall|t: u64| created_at_time(backup_views(out@), t) == created_at_time(
                backup_views(entries@).take(i + 1),
                t,
            ) by {
                lemma_insert_stable(o0, j as int, x@, t);
                assert(backup_views(entries@).take(i + 1).drop_last() =~= backup_views(
                    entries@,
                ).take(i as int));
            }
        }
        i = i + 1;
    }
    assert(backup_views(entries@).take(entries@.len() as int) =~= backup_views(entries@));
    out
}

/// The index of the first backup with identifier `id`.
pub open spec fn index_with_id(v: Seq<BackupView>, id: Seq<char>) -> Option<int>
    decreases v.len(),
{
    if v.len() == 0 {
        None
    } else if v[0].id == id {
        Some(0)
    } else {
        match index_with_id(v.drop_first(), id) {
            Some(k) => Some(k + 1),
            None => None,
        }
    }
}

/// The first backup with identifier `id`; `ConfigNotFound("backup <id>")`
/// when there is none.
pub fn find_backup(entries: &Vec<BackupEntry>, id: &str) -> (r: Result<BackupEntry, AppError>)
    ensures
        match index_with_id(backup_views(entries@), id@) {
            Some(k) => r matches Ok(e) && e@ == backup_views(entries@)[k],
            None => r matches Err(e) && (e matches AppError::ConfigNotFound(m) && m@ == "backup "@
                + id@),
        },
{
    let target = chars_of(id);
    let ghost v = backup_views(entries@);
    let mut i: usize = 0;
    assert(v.skip(0) =~= v);
    while i < entries.len()
        invariant
            i <= entries@.len(),
            v == backup_views(entries@),
            target@ == id@,
            index_with_id(v, id@) == match index_with_id(v.skip(i as int), id@) {
                Some(k) => Some(k + i),
                None => None,
            },
        decreases entries@.len() - i,
    {
        let ghost rest = v.skip(i as int);
        assert(rest[0] == entries@[i as int]@);
        if chars_eq(&chars_of(entries[i].id.as_str()), &target) {
            return Ok(entries[i].duplicate());
        }
        assert(rest.drop_first() =~= v.skip(i + 1));
        i = i + 1;
    }
    assert(v.skip(i as int).len() == 0);
    Err(AppError::ConfigNotFound(concat2("backup ", id)))
}

/// The error for a backup whose content file is missing:
/// `ConfigNotFound("backup file for <id>")`.
pub fn missing_backup_file(id: &str) -> (r: AppError)
    ensures
        r matches AppError::ConfigNotFound(m) && m@ == "backup file for "@ + id@,
{
    AppError::ConfigNotFound(concat2("backup file for ", id))
}

/// A new backup is always kept, as the last (newest) entry of the index;
/// the index keeps the newest entries, twenty of them once there are more.
pub proof fn lemma_new_backup_kept(entries: Seq<BackupView>, entry: BackupView)
    ensures
        ({
            let all = entries.push(entry);
            let kept = all.subrange(excess(all.len() as int), all.len() as int);
            &&& kept.len() > 0
            &&& kept.last() == entry
            &&& kept.len() <= MAX_BACKUPS
            &&& kept.len() == if all.len() > 20 {
                20
            } else {
                all.len() as int
            }
            &&& kept == all.subrange(all.len() - kept.len(), all.len() as int)
        }),
{
}

} // verus!
