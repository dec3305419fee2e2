//! Reading and writing alias lines in shell configuration text.
//!
//! Three forms of alias line are read: `alias name='command'`,
//! `alias name="command"` and `alias name=command`. Tags are kept in a
//! `# @tags:tag1,tag2` comment on the line just above an alias line.
use vstd::prelude::*;

use crate::alias::{alias_views, string_views, Alias, AliasView};
use crate::error::AppError;
use crate::text::{
    chars_eq, chars_of, join, join_chars, push_all, find, find_char, lemma_find, lemma_rfind, has_prefix, lines, lines_of, rfind, rfind_char, slice_copy, split,
    split_chars, starts_with, string_of, trim, trimmed, views,
};

verus! {

/// `"alias "`, the start of an alias line.
pub open spec fn alias_kw() -> Seq<char> {
    seq!['a', 'l', 'i', 'a', 's', ' ']
}

/// `"# @tags:"`, the start of a tags comment.
pub open spec fn tags_prefix() -> Seq<char> {
    seq!['#', ' ', '@', 't', 'a', 'g', 's', ':']
}

fn alias_kw_chars() -> (r: Vec<char>)
    ensures
        r@ == alias_kw(),
{
    let r = vec!['a', 'l', 'i', 'a', 's', ' '];
    assert(r@ =~= alias_kw());
    r
}

fn tags_prefix_chars() -> (r: Vec<char>)
    ensures
        r@ == tags_prefix(),
{
    let r = vec!['#', ' ', '@', 't', 'a', 'g', 's', ':'];
    assert(r@ =~= tags_prefix());
    r
}

/// The text between an opening quote `q` at index 0 and the last `q` of `t`,
/// if that last `q` is not the opening one.
pub open spec fn quoted_body(t: Seq<char>, q: char) -> Option<Seq<char>> {
    match rfind(t, q) {
        Some(e) => if e > 0 {
            Some(t.subrange(1, e))
        } else {
            None
        },
        None => None,
    }
}

/// The command of an alias value: the trimmed value without its quotes; a
/// quoted value runs to the last quote of its kind. An empty value, or a quote
/// that is never closed, gives nothing.
pub open spec fn command_value(value: Seq<char>) -> Option<Seq<char>> {
    let t = trim(value);
    if t.len() == 0 {
        None
    } else if t[0] == '\'' {
        quoted_body(t, '\'')
    } else if t[0] == '"' {
        quoted_body(t, '"')
    } else {
        Some(t)
    }
}

/// The name and command of an alias line: after trimming, the line starts
/// with `alias `, the name runs up to the first `=` and is not empty, and the
/// rest is a command value. Comments and all other lines give nothing.
pub open spec fn alias_line(line: Seq<char>) -> Option<(Seq<char>, Seq<char>)> {
    let t = trim(line);
    if t.len() == 0 || t[0] == '#' || !starts_with(t, alias_kw()) {
        None
    } else {
        let rest = t.subrange(6, t.len() as int);
        match find(rest, '=') {
            None => None,
            Some(eq) => {
                let name = rest.subrange(0, eq);
                if name.len() == 0 {
                    None
                } else {
                    match command_value(rest.subrange(eq + 1, rest.len() as int)) {
                        Some(cmd) => Some((name, cmd)),
                        None => None,
                    }
                }
            },
        }
    }
}

/// The trimmed, non-empty pieces of `parts`, in order.
pub open spec fn clean_tags(parts: Seq<Seq<char>>) -> Seq<Seq<char>>
    decreases parts.len(),
{
    if parts.len() == 0 {
        Seq::empty()
    } else {
        let rest = clean_tags(parts.drop_last());
        let t = trim(parts.last());
        if t.len() > 0 {
            rest.push(t)
        } else {
            rest
        }
    }
}

/// The tags of a tags comment: after trimming, the line starts with
/// `# @tags:` and the rest, split at commas, holds at least one non-blank tag.
pub open spec fn tags_line(line: Seq<char>) -> Option<Seq<Seq<char>>> {
    let t = trim(line);
    if starts_with(t, tags_prefix()) {
        let tags = clean_tags(split(t.subrange(8, t.len() as int), ','));
        if tags.len() > 0 {
            Some(tags)
        } else {
            None
        }
    } else {
        None
    }
}

/// Reads the command part of an alias line.
fn command_value_chars(value: &[char]) -> (r: Option<Vec<char>>)
    ensures
        match r {
            Some(c) => command_value(value@) == Some(c@),
            None => command_value(value@) is None,
        },
{
    let t = trimmed(value);
    if t.len() == 0 {
        return None;
    }
    let q = t[0];
    if q == '\'' || q == '"' {
        proof {
            lemma_rfind(t@, q);
        }
        match rfind_char(&t, q) {
            Some(e) => {
                if e > 0 {
                    Some(slice_copy(&t, 1, e))
                } else {
                    None
                }
            },
            None => None,
        }
    } else {
        Some(t)
    }
}

/// Reads the command part of an alias line: single or double quotes are
/// removed (a quoted value runs to the last quote of its kind), an unquoted
/// value is taken as it is; an empty value or an unclosed quote gives `None`.
pub fn parse_command_value(value: &str) -> (r: Option<String>)
    ensures
        match r {
            Some(c) => command_value(value@) == Some(c@),
            None => command_value(value@) is None,
        },
{
    let v = chars_of(value);
    match command_value_chars(&v) {
        Some(c) => Some(string_of(&c)),
        None => None,
    }
}

/// Reads the name and command of an alias line given as characters.
fn alias_line_chars(line: &[char]) -> (r: Option<(Vec<char>, Vec<char>)>)
    ensures
        match r {
            Some((n, c)) => alias_line(line@) == Some((n@, c@)),
            None => alias_line(line@) is None,
        },
{
    let t = trimmed(line);
    if t.len() == 0 || t[0] == '#' {
        return None;
    }
    let kw = alias_kw_chars();
    if !has_prefix(&t, &kw) {
        return None;
    }
    let rest = slice_copy(&t, 6, t.len());
    proof {
        lemma_find(rest@, '=');
    }
    match find_char(&rest, '=') {
        None => None,
        Some(eq) => {
            if eq == 0 {
                return None;
            }
            let name = slice_copy(&rest, 0, eq);
            let value = slice_copy(&rest, eq + 1, rest.len());
            match command_value_chars(&value) {
                Some(cmd) => Some((name, cmd)),
                None => None,
            }
        },
    }
}

/// Parses one line of a shell configuration file as an alias definition.
/// Lines that are not alias definitions (comments, blank lines, other
/// settings) give `None`. The alias read has no tags.
pub fn parse_alias_line(line: &str) -> (r: Option<Alias>)
    ensures
        match r {
            Some(a) => alias_line(line@) == Some((a.name@, a.command@)) && a.tags@.len() == 0,
            None => alias_line(line@) is None,
        },
{
    let v = chars_of(line);
    match alias_line_chars(&v) {
        Some((n, c)) => Some(Alias::new(string_of(&n), string_of(&c))),
        None => None,
    }
}

/// The trimmed, non-empty pieces of `parts`.
pub(crate) fn clean_tag_pieces(parts: &Vec<Vec<char>>) -> (r: Vec<Vec<char>>)
    ensures
        views(r@) == clean_tags(views(parts@)),
{
    let mut r: Vec<Vec<char>> = Vec::new();
    let mut i: usize = 0;
    while i < parts.len()
        invariant
            i <= parts@.len(),
            views(r@) == clean_tags(views(parts@).take(i as int)),
        decreases parts@.len() - i,
    {
        let ghost before = views(r@);
        let t = trimmed(&parts[i]);
        proof {
            let p = views(parts@).take(i + 1);
            assert(p.drop_last() =~= views(parts@).take(i as int));
            assert(p.last() == parts@[i as int]@);
        }
        if t.len() > 0 {
            r.push(t);
            assert(views(r@) =~= before.push(t@));
        }
        i = i + 1;
    }
    assert(views(parts@).take(parts@.len() as int) =~= views(parts@));
    r
}

/// Reads the tags of a tags comment given as characters.
fn tags_line_chars(line: &[char]) -> (r: Option<Vec<Vec<char>>>)
    ensures
        match r {
            Some(tags) => tags_line(line@) == Some(views(tags@)),
            None => tags_line(line@) is None,
        },
{
    let t = trimmed(line);
    let p = tags_prefix_chars();
    if !has_prefix(&t, &p) {
        return None;
    }
    let rest = slice_copy(&t, 8, t.len());
    let pieces = split_chars(&rest, ',');
    let tags = clean_tag_pieces(&pieces);
    if tags.len() > 0 {
        Some(tags)
    } else {
        None
    }
}

/// Strings made of the given character vectors.
pub(crate) fn strings_of(v: &Vec<Vec<char>>) -> (r: Vec<String>)
    ensures
        string_views(r@) == views(v@),
{
    let mut r: Vec<String> = Vec::new();
    let mut i: usize = 0;
    while i < v.len()
        invariant
            i <= v@.len(),
            string_views(r@) == views(v@).take(i as int),
        decreases v@.len() - i,
    {
        let ghost before = r@;
        let s = string_of(&v[i]);
        r.push(s);
        assert(string_views(before).len() == i);
        assert(r@ == before.push(s));
        assert(string_views(r@) =~= views(v@).take(i + 1)) by {
            assert forall|j: int| 0 <= j < i implies #[trigger] string_views(r@)[j] == views(
                v@,
            ).take(i as int)[j] by {
                assert(string_views(before)[j] == views(v@).take(i as int)[j]);
            }
        }
        i = i + 1;
    }
    assert(views(v@).take(v@.len() as int) =~= views(v@));
    r
}

/// Reads the tags of a `# @tags:tag1,tag2` comment line: the pieces between
/// commas, trimmed, without blank ones; `None` for any other line or when no
/// tag is left.
pub fn parse_tags_comment(line: &str) -> (r: Option<Vec<String>>)
    ensures
        match r {
            Some(tags) => tags_line(line@) == Some(string_views(tags@)),
            None => tags_line(line@) is None,
        },
{
    let v = chars_of(line);
    match tags_line_chars(&v) {
        Some(tags) => Some(strings_of(&tags)),
        None => None,
    }
}

/// `alias name='command'`, the alias line of `a`.
pub open spec fn alias_line_text(a: AliasView) -> Seq<char> {
    alias_kw() + a.name + seq!['=', '\''] + a.command + seq!['\'']
}

/// The text written for an alias: its line, preceded by a
/// `# @tags:tag1,tag2` line when it has tags.
pub open spec fn format_alias(a: AliasView) -> Seq<char> {
    if a.tags.len() == 0 {
        alias_line_text(a)
    } else {
        tags_prefix() + join(a.tags, seq![',']) + seq!['\n'] + alias_line_text(a)
    }
}

/// The characters of each string.
fn chars_list(v: &Vec<String>) -> (r: Vec<Vec<char>>)
    ensures
        views(r@) == string_views(v@),
{
    let mut r: Vec<Vec<char>> = Vec::new();
    let mut i: usize = 0;
    while i < v.len()
        invariant
            i <= v@.len(),
            views(r@) == string_views(v@).take(i as int),
        decreases v@.len() - i,
    {
        let ghost before = r@;
        let c = chars_of(v[i].as_str());
        r.push(c);
        assert(views(before).len() == i);
        assert(r@ == before.push(c));
        assert(views(r@) =~= string_views(v@).take(i + 1)) by {
            assert forall|j: int| 0 <= j < i implies #[trigger] views(r@)[j] == string_views(
                v@,
            ).take(i as int)[j] by {
                assert(views(before)[j] == string_views(v@).take(i as int)[j]);
            }
        }
        i = i + 1;
    }
    assert(string_views(v@).take(v@.len() as int) =~= string_views(v@));
    r
}

/// The text written for an alias, as characters.
fn format_alias_chars(alias: &Alias) -> (r: Vec<char>)
    ensures
        r@ == format_alias(alias@),
{
    let mut line = alias_kw_chars();
    push_all(&mut line, &chars_of(alias.name.as_str()));
    line.push('=');
    line.push('\'');
    push_all(&mut line, &chars_of(alias.command.as_str()));
    line.push('\'');
    assert(line@ =~= alias_line_text(alias@));
    if alias.tags.len() == 0 {
        line
    } else {
        let mut out = tags_prefix_chars();
        let tags = chars_list(&alias.tags);
        let comma = vec![','];
        push_all(&mut out, &join_chars(&tags, &comma));
        out.push('\n');
        push_all(&mut out, &line);
        assert(comma@ =~= seq![',']);
        assert(out@ =~= format_alias(alias@));
        out
    }
}

/// Formats an alias the way it is written to a configuration file, always
/// with single quotes: `alias name='command'`, preceded by a
/// `# @tags:tag1,tag2` line when the alias has tags.
pub fn format_alias_line(alias: &Alias) -> (r: String)
    ensures
        r@ == format_alias(alias@),
{
    string_of(&format_alias_chars(alias))
}

/// `a` with its tags replaced.
pub open spec fn with_tags(a: AliasView, tags: Seq<Seq<char>>) -> AliasView {
    AliasView { tags, ..a }
}

/// Reading lines in order: the aliases read so far, and the tags of a tags
/// comment just read (which go to the alias on the next line, and are dropped
/// by any other line).
pub open spec fn scan_lines(ls: Seq<Seq<char>>) -> (Seq<AliasView>, Option<Seq<Seq<char>>>)
    decreases ls.len(),
{
    if ls.len() == 0 {
        (Seq::empty(), None)
    } else {
        let (acc, pending) = scan_lines(ls.drop_last());
        let line = ls.last();
        match tags_line(line) {
            Some(tags) => (acc, Some(tags)),
            None => match alias_line(line) {
                Some((name, cmd)) => {
                    let a = AliasView { name, command: cmd, tags: Seq::empty() };
                    match pending {
                        Some(t) => (acc.push(with_tags(a, t)), None),
                        None => (acc.push(a), None),
                    }
                },
                None => (acc, None),
            },
        }
    }
}

/// The aliases of a configuration text, in order, with the tags of the tags
/// comment just above each.
pub open spec fn parsed_aliases(content: Seq<char>) -> Seq<AliasView> {
    scan_lines(lines(content)).0
}

/// The alias read from line `k` alone, if it is an alias line: its name and
/// command, with the tags of line `k - 1` when that line is a tags comment.
pub open spec fn alias_at(ls: Seq<Seq<char>>, k: int) -> Option<AliasView> {
    match alias_line(ls[k]) {
        Some((name, cmd)) => {
            let a = AliasView { name, command: cmd, tags: Seq::empty() };
            if k > 0 && tags_line(ls[k - 1]) is Some {
                Some(with_tags(a, tags_line(ls[k - 1])->0))
            } else {
                Some(a)
            }
        },
        None => None,
    }
}

/// The aliases read from the alias lines among the first `m` lines, each on
/// its own, in line order.
pub open spec fn aliases_by_line(ls: Seq<Seq<char>>, m: int) -> Seq<AliasView>
    decreases m,
{
    if m <= 0 {
        Seq::empty()
    } else {
        let rest = aliases_by_line(ls, m - 1);
        match alias_at(ls, m - 1) {
            Some(a) => rest.push(a),
            None => rest,
        }
    }
}

/// A tags comment is not an alias line.
proof fn lemma_tags_not_alias(l: Seq<char>)
    requires
        tags_line(l) is Some,
    ensures
        alias_line(l) is None,
{
    let t = trim(l);
    assert(t.subrange(0, 8)[0] == t[0]);
}

/// Reading the first `m` lines gives the aliases of their alias lines, each
/// read on its own, and leaves pending the tags of line `m - 1` if it is a
/// tags comment.
proof fn lemma_scan_by_line(ls: Seq<Seq<char>>, m: int)
    requires
        0 <= m <= ls.len(),
    ensures
        scan_lines(ls.take(m)).0 == aliases_by_line(ls, m),
        scan_lines(ls.take(m)).1 == if m > 0 {
            tags_line(ls[m - 1])
        } else {
            None
        },
    decreases m,
{
    if m > 0 {
        lemma_scan_by_line(ls, m - 1);
        assert(ls.take(m).drop_last() =~= ls.take(m - 1));
        assert(ls.take(m).last() == ls[m - 1]);
        if tags_line(ls[m - 1]) is Some {
            lemma_tags_not_alias(ls[m - 1]);
        }
    }
}

/// The aliases of a configuration text are those of its alias lines, in
/// line order, each with the tags of the line just above it when that line
/// is a tags comment; all other lines are skipped.
pub proof fn lemma_parsed_by_line(content: Seq<char>)
    ensures
        parsed_aliases(content) == aliases_by_line(lines(content), lines(content).len() as int),
{
    let ls = lines(content);
    lemma_scan_by_line(ls, ls.len() as int);
    assert(ls.take(ls.len() as int) =~= ls);
}

/// Parses all alias lines of a configuration text, with the tags read from
/// the `# @tags:` comment just above each. Other lines are skipped.
pub fn parse_aliases_from_content(content: &str) -> (r: Vec<Alias>)
    ensures
        alias_views(r@) == parsed_aliases(content@),
{
    let ls = lines_of(&chars_of(content));
    let mut out: Vec<Alias> = Vec::new();
    let mut pending: Option<Vec<Vec<char>>> = None;
    let mut i: usize = 0;
    while i < ls.len()
        invariant
            i <= ls@.len(),
            alias_views(out@) == scan_lines(views(ls@).take(i as int)).0,
            match pending {
                Some(t) => scan_lines(views(ls@).take(i as int)).1 == Some(views(t@)),
                None => scan_lines(views(ls@).take(i as int)).1 is None,
            },
        decreases ls@.len() - i,
    {
        let ghost pre = views(ls@).take(i as int);
        let ghost cur = views(ls@).take(i + 1);
        proof {
            assert(cur.drop_last() =~= pre);
            assert(cur.last() == ls@[i as int]@);
        }
        let ghost before = out@;
        match tags_line_chars(&ls[i]) {
            Some(tags) => {
                pending = Some(tags);
            },
            None => {
                match alias_line_chars(&ls[i]) {
                    Some((n, c)) => {
                        let ghost base = AliasView { name: n@, command: c@, tags: Seq::empty() };
                        let ghost expected = match scan_lines(pre).1 {
                            Some(t) => with_tags(base, t),
                            None => base,
                        };
                        let mut a = Alias::new(string_of(&n), string_of(&c));
                        match pending {
                            Some(t) => {
                                a.tags = strings_of(&t);
                            },
                            None => {},
                        }
                        pending = None;
                        assert(a@ =~= expected);
                        out.push(a);
                        proof {
                            assert(scan_lines(cur).0 == scan_lines(pre).0.push(expected));
                            assert(alias_views(before).len() == before.len());
                            assert(out@ == before.push(a));
                            assert(alias_views(out@) =~= alias_views(before).push(a@));
                        }
                    },
                    None => {
                        pending = None;
                    },
                }
            },
        }
        i = i + 1;
    }
    assert(views(ls@).take(ls@.len() as int) =~= views(ls@));
    out
}

/// The index of the first alias in `v` named `n`.
pub open spec fn index_named(v: Seq<AliasView>, n: Seq<char>) -> Option<int>
    decreases v.len(),
{
    if v.len() == 0 {
        None
    } else if v[0].name == n {
        Some(0)
    } else {
        match index_named(v.drop_first(), n) {
            Some(k) => Some(k + 1),
            None => None,
        }
    }
}

/// Some alias in `v` is named `n`.
pub open spec fn has_name(v: Seq<AliasView>, n: Seq<char>) -> bool {
    index_named(v, n) is Some
}

/// What `index_named` returns, characterised.
pub proof fn lemma_index_named(v: Seq<AliasView>, n: Seq<char>)
    ensures
        match index_named(v, n) {
            Some(k) => 0 <= k < v.len() && v[k].name == n && forall|j: int|
                0 <= j < k ==> v[j].name != n,
            None => forall|j: int| 0 <= j < v.len() ==> v[j].name != n,
        },
    decreases v.len(),
{
    if v.len() > 0 && v[0].name != n {
        lemma_index_named(v.drop_first(), n);
        assert forall|j: int| 0 < j < v.len() implies #[trigger] v[j] == v.drop_first()[j - 1] by {}
    }
}

/// The first index `k` with `v[k].name == n` is what `index_named` gives.
pub proof fn lemma_index_named_is(v: Seq<AliasView>, n: Seq<char>, k: Option<int>)
    requires
        match k {
            Some(k) => 0 <= k < v.len() && v[k].name == n && forall|j: int|
                0 <= j < k ==> v[j].name != n,
            None => forall|j: int| 0 <= j < v.len() ==> v[j].name != n,
        },
    ensures
        index_named(v, n) == k,
{
    lemma_index_named(v, n);
    match (index_named(v, n), k) {
        (Some(a), Some(b)) => {
            if a < b {
                assert(v[a].name != n);
            } else if b < a {
                assert(v[b].name != n);
            }
        },
        (Some(a), None) => {
            assert(v[a].name != n);
        },
        (None, Some(b)) => {
            assert(v[b].name != n);
        },
        (None, None) => {},
    }
}

/// The index of the first alias in `aliases` named `name`.
pub fn find_alias_named(aliases: &[Alias], name: &[char]) -> (r: Option<usize>)
    ensures
        match r {
            Some(k) => index_named(alias_views(aliases@), name@) == Some(k as int),
            None => index_named(alias_views(aliases@), name@) is None,
        },
{
    let ghost av = alias_views(aliases@);
    let mut i: usize = 0;
    while i < aliases.len()
        invariant
            i <= aliases@.len(),
            av == alias_views(aliases@),
            forall|j: int| 0 <= j < i ==> av[j].name != name@,
        decreases aliases@.len() - i,
    {
        let n = chars_of(aliases[i].name.as_str());
        if chars_eq(&n, name) {
            proof {
                lemma_index_named_is(av, name@, Some(i as int));
            }
            return Some(i);
        }
        i = i + 1;
    }
    proof {
        lemma_index_named_is(av, name@, None);
    }
    None
}

/// Whether `x` is one of the sequences in `list`.
pub fn contains_chars(list: &Vec<Vec<char>>, x: &[char]) -> (r: bool)
    ensures
        r == views(list@).contains(x@),
{
    let mut i: usize = 0;
    while i < list.len()
        invariant
            i <= list@.len(),
            forall|j: int| 0 <= j < i ==> views(list@)[j] != x@,
        decreases list@.len() - i,
    {
        if chars_eq(&list[i], x) {
            assert(views(list@)[i as int] == x@);
            return true;
        }
        i = i + 1;
    }
    false
}

/// Whether a run of tags comments (possibly none) from line `i` on leads
/// to an alias line.
pub open spec fn run_to_alias(ls: Seq<Seq<char>>, i: int) -> bool
    decreases ls.len() - i,
{
    if i < 0 || i >= ls.len() {
        false
    } else if alias_line(ls[i]) is Some {
        true
    } else if tags_line(ls[i]) is Some {
        run_to_alias(ls, i + 1)
    } else {
        false
    }
}

/// Whether line `i` is a tags comment above an alias line: the tags
/// comments between them, if any, are all tags comments too.
pub open spec fn tags_above_alias(ls: Seq<Seq<char>>, i: int) -> bool {
    0 <= i < ls.len() && tags_line(ls[i]) is Some && run_to_alias(ls, i + 1)
}

/// The line kept or written for each old line, from index `i` on, and
/// the names of the aliases met there that `new` still has. An alias line
/// becomes the formatted first alias of `new` with its name, or disappears
/// when `new` has none; the tags comments above it go in either case; every
/// other line is kept as it is.
pub open spec fn rebuild_lines(ls: Seq<Seq<char>>, i: int, new: Seq<AliasView>) -> (
    Seq<Seq<char>>,
    Seq<Seq<char>>,
)
    decreases ls.len() - i,
{
    if i < 0 || i >= ls.len() {
        (Seq::empty(), Seq::empty())
    } else {
        let (out, used) = rebuild_lines(ls, i + 1, new);
        if tags_above_alias(ls, i) {
            (out, used)
        } else {
            match alias_line(ls[i]) {
                Some((name, _)) => match index_named(new, name) {
                    Some(k) => (seq![format_alias(new[k])] + out, seq![name] + used),
                    None => (out, used),
                },
                None => (seq![ls[i]] + out, used),
            }
        }
    }
}

/// The lines appended for the first `k` aliases of `new` whose names were
/// not met in the old text (each written as the first alias of `new`
/// with that name).
pub open spec fn appended_lines(new: Seq<AliasView>, k: int, used: Seq<Seq<char>>) -> Seq<
    Seq<char>,
>
    decreases k,
{
    if k <= 0 || k > new.len() {
        Seq::empty()
    } else {
        let rest = appended_lines(new, k - 1, used);
        let n = new[k - 1].name;
        if used.contains(n) {
            rest
        } else {
            match index_named(new, n) {
                Some(j) => rest.push(format_alias(new[j])),
                None => rest,
            }
        }
    }
}

/// `s` ending in a line break: one is added unless `s` is empty or already
/// ends with one.
pub open spec fn ensure_final_newline(s: Seq<char>) -> Seq<char> {
    if s.len() > 0 && s.last() != '\n' {
        s.push('\n')
    } else {
        s
    }
}

/// The lines `texts`, each ended by a line break.
pub open spec fn terminated(texts: Seq<Seq<char>>) -> Seq<char> {
    if texts.len() == 0 {
        Seq::empty()
    } else {
        join(texts, seq!['\n']).push('\n')
    }
}

/// The configuration text rebuilt for the alias list `new`: the old text
/// lines with alias lines replaced or removed, then the aliases of `new`
/// that the old text did not have, each line ended by a line break.
pub open spec fn rebuilt_content(content: Seq<char>, new: Seq<AliasView>) -> Seq<char> {
    let (kept, used) = rebuild_lines(lines(content), 0, new);
    terminated(kept + appended_lines(new, new.len() as int, used))
}

/// Whether a run of tags comments from line `start` on leads to an alias
/// line.
fn run_reaches_alias(ls: &Vec<Vec<char>>, start: usize) -> (r: bool)
    requires
        start <= ls@.len(),
    ensures
        r == run_to_alias(views(ls@), start as int),
{
    let ghost lv = views(ls@);
    let mut j: usize = start;
    while j < ls.len()
        invariant
            start <= j <= ls@.len(),
            lv == views(ls@),
            run_to_alias(lv, start as int) == run_to_alias(lv, j as int),
        decreases ls@.len() - j,
    {
        assert(lv[j as int] == ls@[j as int]@);
        if alias_line_chars(&ls[j]).is_some() {
            return true;
        }
        if tags_line_chars(&ls[j]).is_none() {
            return false;
        }
        j = j + 1;
    }
    false
}

/// The formatted first alias of `aliases` named `name`, if there is one.
fn format_named(aliases: &[Alias], name: &[char]) -> (r: Option<Vec<char>>)
    ensures
        match index_named(alias_views(aliases@), name@) {
            Some(k) => r matches Some(f) && f@ == format_alias(alias_views(aliases@)[k]),
            None => r is None,
        },
{
    proof {
        lemma_index_named(alias_views(aliases@), name@);
    }
    match find_alias_named(aliases, name) {
        Some(k) => Some(format_alias_chars(&aliases[k])),
        None => None,
    }
}

/// Rebuilds a configuration text for a new alias list: alias lines of the
/// old text are replaced by the updated alias of the same name or removed
/// when the list no longer has that name, and the tags comments above them
/// (all of a run of them) go with them; all other lines stay as they are, in
/// their order; aliases the old text did not have are appended at the end;
/// every line of the result ends with a line break.
pub fn rebuild_config_content(original_content: &str, aliases: &[Alias]) -> (r: String)
    ensures
        r@ == rebuilt_content(original_content@, alias_views(aliases@)),
{
    let ghost new = alias_views(aliases@);
    let ls = lines_of(&chars_of(original_content));
    let ghost lv = views(ls@);
    let mut result: Vec<Vec<char>> = Vec::new();
    let mut used: Vec<Vec<char>> = Vec::new();
    let mut i: usize = 0;
    while i < ls.len()
        invariant
            i <= ls@.len(),
            lv == views(ls@),
            new == alias_views(aliases@),
            views(result@) + rebuild_lines(lv, i as int, new).0 == rebuild_lines(lv, 0, new).0,
            views(used@) + rebuild_lines(lv, i as int, new).1 == rebuild_lines(lv, 0, new).1,
        decreases ls@.len() - i,
    {
        let ghost r0 = views(result@);
        let ghost u0 = views(used@);
        let above = tags_line_chars(&ls[i]).is_some() && run_reaches_alias(&ls, i + 1);
        assert(lv[i as int] == ls@[i as int]@);
        if !above {
            match alias_line_chars(&ls[i]) {
                Some((name, _)) => {
                    match format_named(aliases, &name) {
                        Some(f) => {
                            result.push(f);
                            used.push(name);
                            assert(views(result@) =~= r0.push(f@));
                            assert(views(used@) =~= u0.push(name@));
                        },
                        None => {},
                    }
                },
                None => {
                    let line = slice_copy(&ls[i], 0, ls[i].len());
                    assert(line@ =~= lv[i as int]);
                    result.push(line);
                    assert(views(result@) =~= r0.push(lv[i as int]));
                },
            }
        }
        i = i + 1;
    }
    let ghost used_all = views(used@);
    assert(rebuild_lines(lv, 0, new).1 =~= used_all);
    assert(rebuild_lines(lv, 0, new).0 =~= views(result@));
    let mut k: usize = 0;
    while k < aliases.len()
        invariant
            k <= aliases@.len(),
            new == alias_views(aliases@),
            views(used@) == used_all,
            views(result@) == rebuild_lines(lv, 0, new).0 + appended_lines(new, k as int, used_all),
        decreases aliases@.len() - k,
    {
        let ghost r0 = views(result@);
        let n = chars_of(aliases[k].name.as_str());
        if !contains_chars(&used, &n) {
            proof {
                lemma_index_named(new, n@);
                assert(new[k as int].name == n@);
            }
            match format_named(aliases, &n) {
                Some(f) => {
                    result.push(f);
                    assert(views(result@) =~= r0.push(f@));
                },
                None => {},
            }
        }
        k = k + 1;
    }
    let nl = vec!['\n'];
    assert(nl@ =~= seq!['\n']);
    let mut joined = join_chars(&result, &nl);
    if result.len() > 0 {
        joined.push('\n');
    }
    string_of(&joined)
}

/// `v` with every alias named `n` removed.
pub open spec fn remove_named(v: Seq<AliasView>, n: Seq<char>) -> Seq<AliasView>
    decreases v.len(),
{
    if v.len() == 0 {
        Seq::empty()
    } else {
        let r = remove_named(v.drop_last(), n);
        if v.last().name == n {
            r
        } else {
            r.push(v.last())
        }
    }
}

/// How many aliases of `v` are named `n`.
pub open spec fn count_named(v: Seq<AliasView>, n: Seq<char>) -> nat
    decreases v.len(),
{
    if v.len() == 0 {
        0
    } else {
        count_named(v.drop_last(), n) + if v.last().name == n {
            1nat
        } else {
            0nat
        }
    }
}

/// `v` with every alias named `old` replaced by `a`.
pub open spec fn replace_named(v: Seq<AliasView>, old: Seq<char>, a: AliasView) -> Seq<
    AliasView,
> {
    v.map_values(|x: AliasView| if x.name == old {
        a
    } else {
        x
    })
}

/// The text that adding `a` to `content` gives: `content`, a line break if it
/// lacks a final one, and the formatted alias with a line break.
pub open spec fn added_content(content: Seq<char>, a: AliasView) -> Seq<char> {
    ensure_final_newline(content) + format_alias(a) + seq!['\n']
}

/// The text that adding each alias of `xs` in turn to `content` gives.
pub open spec fn added_all(content: Seq<char>, xs: Seq<AliasView>) -> Seq<char>
    decreases xs.len(),
{
    if xs.len() == 0 {
        content
    } else {
        added_content(added_all(content, xs.drop_last()), xs.last())
    }
}

/// Appends `alias` to the text `v` as adding it does: a line break if the
/// text lacks a final one, then the formatted alias and a line break.
pub(crate) fn append_alias_chars(v: &mut Vec<char>, alias: &Alias)
    ensures
        final(v)@ == added_content(old(v)@, alias@),
{
    if v.len() > 0 && v[v.len() - 1] != '\n' {
        v.push('\n');
    }
    push_all(v, &format_alias_chars(alias));
    v.push('\n');
}

/// Whether some alias of `aliases` is named `name`.
fn any_named(aliases: &Vec<Alias>, name: &str) -> (r: bool)
    ensures
        r == has_name(alias_views(aliases@), name@),
{
    let n = chars_of(name);
    find_alias_named(aliases.as_slice(), &n).is_some()
}

/// Adds an alias line at the end of a configuration text. The text gets a
/// final line break first if it lacks one. An existing alias with the same
/// name gives `AliasExists`.
pub fn add_alias_to_content(content: &str, alias: &Alias) -> (r: Result<String, AppError>)
    ensures
        match r {
            Ok(s) => !has_name(parsed_aliases(content@), alias.name@) && s@ == added_content(
                content@,
                alias@,
            ),
            Err(e) => has_name(parsed_aliases(content@), alias.name@) && (e matches AppError::AliasExists(
                n,
            ) && n@ == alias.name@),
        },
{
    let existing = parse_aliases_from_content(content);
    if any_named(&existing, alias.name.as_str()) {
        return Err(AppError::AliasExists(alias.name.clone()));
    }
    let mut v = chars_of(content);
    append_alias_chars(&mut v, alias);
    Ok(string_of(&v))
}

/// `v` with every alias named `old` replaced by a copy of `alias`.
fn replace_named_vec(v: Vec<Alias>, old: &str, alias: &Alias) -> (r: Vec<Alias>)
    ensures
        alias_views(r@) == replace_named(alias_views(v@), old@, alias@),
{
    let o = chars_of(old);
    let mut r: Vec<Alias> = Vec::new();
    let mut i: usize = 0;
    while i < v.len()
        invariant
            i <= v@.len(),
            o@ == old@,
            alias_views(r@) == replace_named(alias_views(v@), old@, alias@).take(i as int),
        decreases v@.len() - i,
    {
        let ghost before = r@;
        let n = chars_of(v[i].name.as_str());
        let x = if chars_eq(&n, &o) {
            alias.duplicate()
        } else {
            v[i].duplicate()
        };
        r.push(x);
        proof {
            assert(alias_views(before).len() == before.len());
            assert(r@ == before.push(x));
            assert(alias_views(r@) =~= alias_views(before).push(x@));
            assert(replace_named(alias_views(v@), old@, alias@).take(i + 1) =~= replace_named(
                alias_views(v@),
                old@,
                alias@,
            ).take(i as int).push(x@));
        }
        i = i + 1;
    }
    assert(replace_named(alias_views(v@), old@, alias@).take(v@.len() as int) =~= replace_named(
        alias_views(v@),
        old@,
        alias@,
    ));
    r
}

/// How many aliases of `v` are named `name`.
fn count_named_vec(v: &Vec<Alias>, name: &str) -> (r: usize)
    ensures
        r == count_named(alias_views(v@), name@),
{
    let n = chars_of(name);
    let mut c: usize = 0;
    let mut i: usize = 0;
    while i < v.len()
        invariant
            i <= v@.len(),
            n@ == name@,
            c <= i,
            c == count_named(alias_views(v@).take(i as int), name@),
        decreases v@.len() - i,
    {
        let ghost cur = alias_views(v@).take(i + 1);
        assert(cur.drop_last() =~= alias_views(v@).take(i as int));
        let m = chars_of(v[i].name.as_str());
        if chars_eq(&m, &n) {
            c = c + 1;
        }
        i = i + 1;
    }
    assert(alias_views(v@).take(v@.len() as int) =~= alias_views(v@));
    c
}

/// `v` without the aliases named `name`.
pub fn remove_named_vec(v: Vec<Alias>, name: &str) -> (r: Vec<Alias>)
    ensures
        alias_views(r@) == remove_named(alias_views(v@), name@),
{
    let n = chars_of(name);
    let mut r: Vec<Alias> = Vec::new();
    let mut i: usize = 0;
    while i < v.len()
        invariant
            i <= v@.len(),
            n@ == name@,
            alias_views(r@) == remove_named(alias_views(v@).take(i as int), name@),
        decreases v@.len() - i,
    {
        let ghost before = r@;
        let ghost cur = alias_views(v@).take(i + 1);
        assert(cur.drop_last() =~= alias_views(v@).take(i as int));
        let m = chars_of(v[i].name.as_str());
        if !chars_eq(&m, &n) {
            let x = v[i].duplicate();
            r.push(x);
            assert(alias_views(before).len() == before.len());
            assert(r@ == before.push(x));
            assert(alias_views(r@) =~= alias_views(before).push(x@));
        }
        i = i + 1;
    }
    assert(alias_views(v@).take(v@.len() as int) =~= alias_views(v@));
    r
}

/// Updates an existing alias of a configuration text: every alias named
/// `old_name` is replaced by `alias` and the text is rebuilt. `AliasNotFound`
/// when no alias has that name; `AliasExists` when a rename would leave two
/// aliases with the new name.
pub fn update_alias_in_content(content: &str, old_name: &str, alias: &Alias) -> (r: Result<
    String,
    AppError,
>)
    ensures
        ({
            let p = parsed_aliases(content@);
            let q = replace_named(p, old_name@, alias@);
            let conflict = old_name@ != alias.name@ && count_named(q, alias.name@) > 1;
            match r {
                Ok(s) => has_name(p, old_name@) && !conflict && s@ == rebuilt_content(content@, q),
                Err(e) => if !has_name(p, old_name@) {
                    e matches AppError::AliasNotFound(n) && n@ == old_name@
                } else {
                    conflict && (e matches AppError::AliasExists(n) && n@ == alias.name@)
                },
            }
        }),
{
    let existing = parse_aliases_from_content(content);
    if !any_named(&existing, old_name) {
        return Err(AppError::AliasNotFound(String::from_str(old_name)));
    }
    let new_aliases = replace_named_vec(existing, old_name, alias);
    let o = chars_of(old_name);
    let n = chars_of(alias.name.as_str());
    if !chars_eq(&o, &n) && count_named_vec(&new_aliases, alias.name.as_str()) > 1 {
        return Err(AppError::AliasExists(alias.name.clone()));
    }
    Ok(rebuild_config_content(content, new_aliases.as_slice()))
}

/// Deletes an alias from a configuration text: every alias with that name is
/// dropped and the text is rebuilt. `AliasNotFound` when no alias has that
/// name.
pub fn delete_alias_from_content(content: &str, name: &str) -> (r: Result<String, AppError>)
    ensures
        ({
            let p = parsed_aliases(content@);
            match r {
                Ok(s) => has_name(p, name@) && s@ == rebuilt_content(content@, remove_named(p, name@)),
                Err(e) => !has_name(p, name@) && (e matches AppError::AliasNotFound(n) && n@ == name@),
            }
        }),
{
    let existing = parse_aliases_from_content(content);
    if !any_named(&existing, name) {
        return Err(AppError::AliasNotFound(String::from_str(name)));
    }
    let remaining = remove_named_vec(existing, name);
    Ok(rebuild_config_content(content, remaining.as_slice()))
}

} // verus!
