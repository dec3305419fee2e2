//! The search box of the alias list: an alias is shown when the lowercased
//! query occurs in its lowercased name, command or one of its tags.
use vstd::prelude::*;

use crate::alias::{alias_views, Alias, AliasView};
use crate::text::{chars_of, to_lowercase, unicode_lowercase};

verus! {

/// `p` occurs in `s` as a run of consecutive characters.
pub open spec fn occurs_in(s: Seq<char>, p: Seq<char>) -> bool {
    exists|i: int| 0 <= i && i + p.len() <= s.len() && #[trigger] s.subrange(i, i + p.len()) == p
}

/// Whether an alias matches a lowercased query.
pub open spec fn alias_matches(a: AliasView, lq: Seq<char>) -> bool {
    ||| occurs_in(unicode_lowercase(a.name), lq)
    ||| occurs_in(unicode_lowercase(a.command), lq)
    ||| exists|t: int| 0 <= t < a.tags.len() && occurs_in(unicode_lowercase(#[trigger] a.tags[t]), lq)
}

/// The aliases of `v` that match the lowercased query `lq`, in order.
pub open spec fn matching(v: Seq<AliasView>, lq: Seq<char>) -> Seq<AliasView>
    decreases v.len(),
{
    if v.len() == 0 {
        Seq::empty()
    } else if alias_matches(v.last(), lq) {
        matching(v.drop_last(), lq).push(v.last())
    } else {
        matching(v.drop_last(), lq)
    }
}

/// The aliases shown for a search query: all of them for an empty query.
pub open spec fn filtered(v: Seq<AliasView>, query: Seq<char>) -> Seq<AliasView> {
    if query.len() == 0 {
        v
    } else {
        matching(v, unicode_lowercase(query))
    }
}

/// Whether `p` occurs in `s` at index `i`.
fn occurs_at(s: &[char], i: usize, p: &[char]) -> (r: bool)
    requires
        i + p@.len() <= s@.len(),
    ensures
        r == (s@.subrange(i as int, i + p@.len()) == p@),
{
    let mut j: usize = 0;
    while j < p.len()
        invariant
            j <= p@.len(),
            i + p.len() <= s.len(),
            s@.len() == s.len(),
            p@.len() == p.len(),
            forall|k: int| 0 <= k < j ==> s@[i + k] == p@[k],
        decreases p@.len() - j,
    {
        if s[i + j] != p[j] {
            assert(s@.subrange(i as int, i + p@.len())[j as int] != p@[j as int]);
            return false;
        }
        j = j + 1;
    }
    assert(s@.subrange(i as int, i + p@.len()) =~= p@);
    true
}

/// Whether `p` occurs in `s`.
pub fn occurs(s: &[char], p: &[char]) -> (r: bool)
    ensures
        r == occurs_in(s@, p@),
{
    if p.len() > s.len() {
        return false;
    }
    let last = s.len() - p.len();
    let mut i: usize = 0;
    loop
        invariant
            i <= last,
            last + p@.len() == s@.len(),
            forall|k: int| 0 <= k < i ==> #[trigger] s@.subrange(k, k + p@.len()) != p@,
        decreases last - i,
    {
        if occurs_at(s, i, p) {
            return true;
        }
        if i == last {
            return false;
        }
        i = i + 1;
    }
}

/// Whether `text`, lowercased, contains the lowercased query `lq`.
fn lower_contains(text: &str, lq: &[char]) -> (r: bool)
    ensures
        r == occurs_in(unicode_lowercase(text@), lq@),
{
    let l = to_lowercase(text);
    occurs(&chars_of(l.as_str()), lq)
}

/// Whether an alias matches the lowercased query `lq`.
fn matches_query(a: &Alias, lq: &[char]) -> (r: bool)
    ensures
        r == alias_matches(a@, lq@),
{
    if lower_contains(a.name.as_str(), lq) || lower_contains(a.command.as_str(), lq) {
        return true;
    }
    let ghost av = a@;
    let mut t: usize = 0;
    while t < a.tags.len()
        invariant
            t <= a.tags@.len(),
            av == a@,
            forall|k: int| 0 <= k < t ==> !occurs_in(unicode_lowercase(#[trigger] av.tags[k]), lq@),
        decreases a.tags@.len() - t,
    {
        if lower_contains(a.tags[t].as_str(), lq) {
            assert(av.tags[t as int] == a.tags@[t as int]@);
            return true;
        }
        t = t + 1;
    }
    false
}

/// The aliases shown for a search query: with an empty query all of them,
/// otherwise those whose name, command or a tag contains the query,
/// compared in lower case; the order is kept.
pub fn filtered_aliases(aliases: &[Alias], query: &str) -> (r: Vec<Alias>)
    ensures
        alias_views(r@) == filtered(alias_views(aliases@), query@),
{
    let ghost v = alias_views(aliases@);
    let q = chars_of(query);
    let lower = to_lowercase(query);
    let lq = chars_of(lower.as_str());
    let mut out: Vec<Alias> = Vec::new();
    let mut i: usize = 0;
    while i < aliases.len()
        invariant
            i <= aliases@.len(),
            v == alias_views(aliases@),
            q@ == query@,
            lq@ == unicode_lowercase(query@),
            alias_views(out@) == (if q@.len() == 0 {
                v.take(i as int)
            } else {
                matching(v.take(i as int), lq@)
            }),
        decreases aliases@.len() - i,
    {
        proof {
            assert(v.take(i + 1).drop_last() =~= v.take(i as int));
            assert(v.take(i + 1).last() == v[i as int]);
        }
        let ghost o0 = alias_views(out@);
        if q.len() == 0 || matches_query(&aliases[i], &lq) {
            out.push(aliases[i].duplicate());
            assert(alias_views(out@) =~= o0.push(v[i as int]));
        }
        if q.len() == 0 {
            assert(v.take(i + 1) =~= v.take(i as int).push(v[i as int]));
        }
        i = i + 1;
    }
    assert(v.take(aliases@.len() as int) =~= v);
    out
}

/// What `matching` keeps: every alias of `v` that matches, and only
/// aliases of `v` that match.
proof fn lemma_matching(v: Seq<AliasView>, lq: Seq<char>)
    ensures
        forall|i: int|
            0 <= i < v.len() && alias_matches(v[i], lq) ==> #[trigger] matching(v, lq).contains(
                v[i],
            ),
        forall|x: AliasView| #[trigger]
            matching(v, lq).contains(x) ==> v.contains(x) && alias_matches(x, lq),
    decreases v.len(),
{
    if v.len() > 0 {
        let init = v.drop_last();
        lemma_matching(init, lq);
        let m0 = matching(init, lq);
        let m = matching(v, lq);
        assert forall|i: int| 0 <= i < v.len() && alias_matches(v[i], lq) implies #[trigger] m.contains(
            v[i],
        ) by {
            if i < v.len() - 1 {
                assert(init[i] == v[i]);
                assert(m0.contains(init[i]));
                let k = choose|k: int| 0 <= k < m0.len() && m0[k] == init[i];
                if alias_matches(v.last(), lq) {
                    assert(m[k] == m0[k]);
                }
            } else {
                assert(m[m.len() - 1] == v.last());
            }
        }
        assert forall|x: AliasView| #[trigger] m.contains(x) implies v.contains(x) && alias_matches(
            x,
            lq,
        ) by {
            let k = choose|k: int| 0 <= k < m.len() && m[k] == x;
            if alias_matches(v.last(), lq) && k == m.len() - 1 {
                assert(v[v.len() - 1] == x);
            } else {
                assert(m0[k] == x);
                assert(m0.contains(x));
                let j = choose|j: int| 0 <= j < init.len() && init[j] == x;
                assert(v[j] == x);
            }
        }
    }
}

/// The search law: with an empty query every alias is shown; with a
/// non-empty query an alias is shown exactly when the lowercased query
/// occurs in its lowercased name, in its lowercased command or in one of its
/// lowercased tags, and only aliases of the list are shown.
pub proof fn lemma_search_finds(v: Seq<AliasView>, query: Seq<char>)
    ensures
        query.len() == 0 ==> filtered(v, query) == v,
        query.len() > 0 ==> forall|i: int|
            0 <= i < v.len() ==> ((#[trigger] filtered(v, query).contains(v[i])) <== (
            occurs_in(unicode_lowercase(v[i].name), unicode_lowercase(query)) || occurs_in(
                unicode_lowercase(v[i].command),
                unicode_lowercase(query),
            ) || exists|t: int|
                0 <= t < v[i].tags.len() && occurs_in(
                    unicode_lowercase(#[trigger] v[i].tags[t]),
                    unicode_lowercase(query),
                ))),
        query.len() > 0 ==> forall|x: AliasView| #[trigger]
            filtered(v, query).contains(x) ==> v.contains(x) && (occurs_in(
                unicode_lowercase(x.name),
                unicode_lowercase(query),
            ) || occurs_in(unicode_lowercase(x.command), unicode_lowercase(query)) || exists|t: int|
                0 <= t < x.tags.len() && occurs_in(
                    unicode_lowercase(#[trigger] x.tags[t]),
                    unicode_lowercase(query),
                )),
{
    lemma_matching(v, unicode_lowercase(query));
}

} // verus!
