//! What reading a configuration text gives back of what was written to it.
use vstd::prelude::*;

use crate::alias::AliasView;
use crate::alias_parser::{
    added_content, alias_kw, alias_line, alias_line_text, clean_tags, command_value,
    ensure_final_newline, format_alias, parsed_aliases, quoted_body, scan_lines, tags_line,
    tags_prefix, with_tags,
};
use crate::text::{
    find, find_from, is_ws, join, lemma_find, lemma_find_from, lemma_rfind, lemma_trim_start_first,
    lines, rfind, split, starts_with, strip_cr, trim, trim_end, trim_start,
};

verus! {

/// A tag that survives being written and read back: not empty, without
/// surrounding white space, commas or line breaks.
pub open spec fn writable_tag(t: Seq<char>) -> bool {
    &&& t.len() > 0
    &&& trim(t) == t
    &&& !t.contains(',')
    &&& !t.contains('\n')
}

/// An alias that survives being written and read back: a non-empty name
/// without `=` or line breaks, a command without line breaks, and writable
/// tags.
pub open spec fn writable(a: AliasView) -> bool {
    &&& a.name.len() > 0
    &&& !a.name.contains('=')
    &&& !a.name.contains('\n')
    &&& !a.command.contains('\n')
    &&& forall|k: int| 0 <= k < a.tags.len() ==> writable_tag(#[trigger] a.tags[k])
}

/// A tags comment was the last line read, with no line after it to take its
/// tags.
pub open spec fn ends_in_tags_comment(content: Seq<char>) -> bool {
    scan_lines(lines(content)).1 is Some
}

// ---------------------------------------------------------------------------
// Trimming

proof fn lemma_trim_start_len(s: Seq<char>)
    ensures
        trim_start(s).len() <= s.len(),
        s.len() > 0 && is_ws(s[0]) ==> trim_start(s).len() < s.len(),
    decreases s.len(),
{
    if s.len() > 0 && is_ws(s[0]) {
        lemma_trim_start_len(s.drop_first());
    }
}

proof fn lemma_trim_end_len(s: Seq<char>)
    ensures
        trim_end(s).len() <= s.len(),
        s.len() > 0 && is_ws(s.last()) ==> trim_end(s).len() < s.len(),
    decreases s.len(),
{
    if s.len() > 0 && is_ws(s.last()) {
        lemma_trim_end_len(s.drop_last());
    }
}

/// A text that neither starts nor ends with white space is its own trim.
pub proof fn lemma_trim_unchanged(s: Seq<char>)
    requires
        s.len() > 0,
        !is_ws(s[0]),
        !is_ws(s.last()),
    ensures
        trim(s) == s,
{
}

/// A text that is its own trim, and not empty, neither starts nor ends with
/// white space.
proof fn lemma_trimmed_ends(s: Seq<char>)
    requires
        s.len() > 0,
        trim(s) == s,
    ensures
        !is_ws(s[0]),
        !is_ws(s.last()),
{
    lemma_trim_start_len(s);
    lemma_trim_end_len(trim_start(s));
    if !is_ws(s[0]) {
        assert(trim_start(s) == s);
        lemma_trim_end_len(s);
    }
}

proof fn lemma_trim_start_push(x: Seq<char>, c: char)
    ensures
        trim_start(x.push(c)) == if trim_start(x).len() > 0 || !is_ws(c) {
            trim_start(x).push(c)
        } else {
            Seq::<char>::empty()
        },
    decreases x.len(),
{
    if x.len() == 0 {
        assert(x.push(c) =~= seq![c]);
        assert(seq![c].drop_first() =~= Seq::<char>::empty());
        assert(x =~= Seq::<char>::empty());
    } else {
        assert(x.push(c).drop_first() =~= x.drop_first().push(c));
        assert(x.push(c)[0] == x[0]);
        if is_ws(x[0]) {
            lemma_trim_start_push(x.drop_first(), c);
        }
    }
}

/// Dropping a carriage return at the end of a line does not change its trim.
pub proof fn lemma_trim_strip_cr(l: Seq<char>)
    ensures
        trim(strip_cr(l)) == trim(l),
{
    if l.len() > 0 && l.last() == '\r' {
        let x = l.drop_last();
        assert(x.push('\r') =~= l);
        lemma_trim_start_push(x, '\r');
        if trim_start(x).len() > 0 {
            assert(trim_start(l).drop_last() =~= trim_start(x));
        }
    }
}

// ---------------------------------------------------------------------------
// Finding, lines

pub proof fn lemma_find_in_prefix(p: Seq<char>, q: Seq<char>, c: char)
    requires
        find(p, c) is Some,
    ensures
        find(p + q, c) == find(p, c),
{
    lemma_find(p, c);
    let i = find(p, c)->0;
    assert forall|j: int| 0 <= j < i implies (p + q)[j] != c by {
        assert((p + q)[j] == p[j]);
    }
    lemma_find_from(p + q, c, 0, Some(i));
}

/// The lines of a text without line breaks: itself, unless it is empty.
pub proof fn lemma_lines_single(x: Seq<char>)
    requires
        !x.contains('\n'),
    ensures
        lines(x) == (if x.len() == 0 {
            Seq::<Seq<char>>::empty()
        } else {
            seq![x]
        }),
        lines(x.push('\n')) == seq![strip_cr(x)],
{
    lemma_find(x, '\n');
    if x.len() > 0 && find(x, '\n') is Some {
        let k = find(x, '\n')->0;
        assert(x.contains('\n')) by {
            assert(x[k] == '\n');
        }
    }
    let y = x.push('\n');
    assert forall|j: int| 0 <= j < x.len() implies y[j] != '\n' by {
        if y[j] == '\n' {
            assert(x[j] == '\n');
            assert(x.contains('\n'));
        }
    }
    lemma_find_from(y, '\n', 0, Some(x.len() as int));
    assert(y.subrange(0, x.len() as int) =~= x);
    assert(y.subrange(x.len() as int + 1, y.len() as int) =~= Seq::<char>::empty());
    assert(lines(Seq::<char>::empty()) == Seq::<Seq<char>>::empty());
    assert(seq![strip_cr(x)] + Seq::<Seq<char>>::empty() =~= seq![strip_cr(x)]);
}

/// Lines of a text that ends with a line break, followed by more text.
pub proof fn lemma_lines_append(p: Seq<char>, q: Seq<char>)
    requires
        p.len() == 0 || p.last() == '\n',
    ensures
        lines(p + q) == lines(p) + lines(q),
    decreases p.len(),
{
    if p.len() == 0 {
        assert(p + q =~= q);
        assert(lines(p) + lines(q) =~= lines(q));
    } else {
        assert(p.contains('\n')) by {
            assert(p[p.len() - 1] == '\n');
        }
        lemma_find(p, '\n');
        if find(p, '\n') is None {
            assert(p[p.len() - 1] != '\n');
        }
        let i = find(p, '\n')->0;
        lemma_find_in_prefix(p, q, '\n');
        let rest = p.subrange(i + 1, p.len() as int);
        assert((p + q).subrange(0, i) =~= p.subrange(0, i));
        assert((p + q).subrange(i + 1, (p + q).len() as int) =~= rest + q);
        if rest.len() > 0 {
            assert(rest.last() == p.last());
        }
        lemma_lines_append(rest, q);
        assert(lines(p + q) =~= seq![strip_cr(p.subrange(0, i))] + (lines(rest) + lines(q)));
        assert(lines(p) =~= seq![strip_cr(p.subrange(0, i))] + lines(rest));
    }
}

/// The last piece of a text after its last line break.
proof fn lemma_split_last_line(c: Seq<char>)
    requires
        c.len() > 0,
        c.last() != '\n',
    ensures
        ({
            let k = match rfind(c, '\n') {
                Some(k) => k + 1,
                None => 0,
            };
            let p = c.subrange(0, k);
            let x = c.subrange(k, c.len() as int);
            &&& 0 <= k < c.len()
            &&& p + x == c
            &&& p.len() == 0 || p.last() == '\n'
            &&& !x.contains('\n')
            &&& x.len() > 0
        }),
{
    lemma_rfind(c, '\n');
    let k = match rfind(c, '\n') {
        Some(k) => k + 1,
        None => 0,
    };
    let x = c.subrange(k, c.len() as int);
    assert(c.subrange(0, k) + x =~= c);
    if x.contains('\n') {
        let j = choose|j: int| 0 <= j < x.len() && x[j] == '\n';
        assert(c[k + j] == '\n');
    }
}

// ---------------------------------------------------------------------------
// Scanning

/// Reading one more line.
proof fn lemma_scan_push(ls: Seq<Seq<char>>, l: Seq<char>)
    ensures
        scan_lines(ls.push(l)) == ({
            let (acc, pending) = scan_lines(ls);
            match tags_line(l) {
                Some(tags) => (acc, Some(tags)),
                None => match alias_line(l) {
                    Some((name, cmd)) => {
                        let a = AliasView { name, command: cmd, tags: Seq::empty() };
                        match pending {
                            Some(t) => (acc.push(with_tags(a, t)), None),
                            None => (acc.push(a), None),
                        }
                    },
                    None => (acc, None),
                },
            }
        }),
{
    assert(ls.push(l).drop_last() =~= ls);
}

/// A line and the same line without its final carriage return read alike.
proof fn lemma_scan_strip_cr(ls: Seq<Seq<char>>, l: Seq<char>)
    ensures
        scan_lines(ls.push(l)) == scan_lines(ls.push(strip_cr(l))),
{
    lemma_trim_strip_cr(l);
    lemma_scan_push(ls, l);
    lemma_scan_push(ls, strip_cr(l));
}

/// A text and the same text with a final line break read alike.
pub proof fn lemma_scan_final_newline(c: Seq<char>)
    ensures
        scan_lines(lines(ensure_final_newline(c))) == scan_lines(lines(c)),
{
    if c.len() > 0 && c.last() != '\n' {
        lemma_split_last_line(c);
        let k = match rfind(c, '\n') {
            Some(k) => k + 1,
            None => 0,
        };
        let p = c.subrange(0, k);
        let x = c.subrange(k, c.len() as int);
        lemma_lines_single(x);
        lemma_lines_append(p, x);
        lemma_lines_append(p, x.push('\n'));
        assert(p + x.push('\n') =~= c.push('\n'));
        assert(lines(c) =~= lines(p).push(x));
        assert(lines(c.push('\n')) =~= lines(p).push(strip_cr(x)));
        lemma_scan_strip_cr(lines(p), x);
    }
}

// ---------------------------------------------------------------------------
// The written lines

pub proof fn lemma_no_char_concat(a: Seq<char>, b: Seq<char>, c: char)
    requires
        !a.contains(c),
        !b.contains(c),
    ensures
        !(a + b).contains(c),
{
    if (a + b).contains(c) {
        let j = choose|j: int| 0 <= j < (a + b).len() && (a + b)[j] == c;
        if j < a.len() {
            assert(a[j] == c);
        } else {
            assert(b[j - a.len()] == c);
        }
    }
}

/// The alias line of a writable alias reads back as its name and command,
/// and is no tags comment.
pub proof fn lemma_alias_line_reads_back(a: AliasView)
    requires
        writable(a),
    ensures
        alias_line(alias_line_text(a)) == Some((a.name, a.command)),
        tags_line(alias_line_text(a)) is None,
        !alias_line_text(a).contains('\n'),
        alias_line_text(a).len() > 0,
        alias_line_text(a).last() != '\r',
{
    let t = alias_line_text(a);
    let n = a.name.len() as int;
    assert(t[0] == 'a');
    assert(t.last() == '\'');
    lemma_trim_unchanged(t);
    assert(t.subrange(0, 6) =~= alias_kw());
    let rest = t.subrange(6, t.len() as int);
    assert(rest =~= a.name + seq!['=', '\''] + a.command + seq!['\'']);
    assert forall|j: int| 0 <= j < n implies rest[j] != '=' by {
        assert(rest[j] == a.name[j]);
        if a.name[j] == '=' {
            assert(a.name.contains('='));
        }
    }
    assert(rest[n] == '=');
    lemma_find_from(rest, '=', 0, Some(n));
    assert(rest.subrange(0, n) =~= a.name);
    let v = rest.subrange(n + 1, rest.len() as int);
    assert(v =~= seq!['\''] + a.command + seq!['\'']);
    lemma_trim_unchanged(v);
    lemma_rfind(v, '\'');
    assert(v.subrange(1, v.len() - 1) =~= a.command);
    assert(quoted_body(v, '\'') == Some(a.command));
    assert(command_value(v) == Some(a.command));
    assert(t[0] != '#');
    assert(!starts_with(t, tags_prefix())) by {
        if starts_with(t, tags_prefix()) {
            assert(t.subrange(0, 8)[0] == t[0]);
        }
    }
    assert(!t.contains('\n')) by {
        lemma_no_char_concat(alias_kw(), a.name, '\n');
        lemma_no_char_concat(alias_kw() + a.name, seq!['=', '\''], '\n');
        lemma_no_char_concat(alias_kw() + a.name + seq!['=', '\''], a.command, '\n');
        lemma_no_char_concat(alias_kw() + a.name + seq!['=', '\''] + a.command, seq!['\''], '\n');
    }
}

/// Joining with a separator, taken from the front.
proof fn lemma_join_front(parts: Seq<Seq<char>>, sep: Seq<char>)
    requires
        parts.len() >= 2,
    ensures
        join(parts, sep) == parts[0] + sep + join(parts.drop_first(), sep),
    decreases parts.len(),
{
    if parts.len() > 2 {
        lemma_join_front(parts.drop_last(), sep);
        assert(parts.drop_last().drop_first() =~= parts.drop_first().drop_last());
        assert(parts.drop_first().last() == parts.last());
        assert(parts.drop_last()[0] == parts[0]);
        let j = join(parts.drop_first().drop_last(), sep);
        assert(join(parts.drop_first(), sep) == j + sep + parts.last());
        assert(join(parts, sep) == (parts[0] + sep + j) + sep + parts.last());
        assert((parts[0] + sep + j) + sep + parts.last() =~= parts[0] + sep + (j + sep
            + parts.last()));
    } else {
        assert(parts.drop_first().len() == 1);
        assert(parts.drop_last().len() == 1);
        assert(parts.drop_last()[0] == parts[0]);
        assert(parts.drop_first()[0] == parts.last());
        assert(join(parts.drop_last(), sep) == parts[0]);
        assert(join(parts.drop_first(), sep) == parts.last());
        assert(join(parts, sep) == join(parts.drop_last(), sep) + sep + parts.last());
    }
}

/// Splitting joined pieces that hold no separator gives them back.
proof fn lemma_split_join(parts: Seq<Seq<char>>, c: char)
    requires
        parts.len() > 0,
        forall|k: int| 0 <= k < parts.len() ==> !(#[trigger] parts[k]).contains(c),
    ensures
        split(join(parts, seq![c]), c) == parts,
        forall|k: int| 0 <= k < parts.len() ==> !(#[trigger] parts[k]).contains('\n') ==> true,
    decreases parts.len(),
{
    let p0 = parts[0];
    if parts.len() == 1 {
        assert(!p0.contains(c));
        lemma_find(p0, c);
        if find(p0, c) is Some {
            let j = find(p0, c)->0;
            assert(p0[j] == c);
        }
        assert(parts =~= seq![p0]);
    } else {
        lemma_join_front(parts, seq![c]);
        let rest = parts.drop_first();
        assert forall|k: int| 0 <= k < rest.len() implies !(#[trigger] rest[k]).contains(c) by {
            assert(rest[k] == parts[k + 1]);
        }
        lemma_split_join(rest, c);
        let s = p0 + seq![c] + join(rest, seq![c]);
        assert(!p0.contains(c));
        assert forall|j: int| 0 <= j < p0.len() implies s[j] != c by {
            assert(s[j] == p0[j]);
            if p0[j] == c {
                assert(p0.contains(c));
            }
        }
        assert(s[p0.len() as int] == c);
        lemma_find_from(s, c, 0, Some(p0.len() as int));
        assert(s.subrange(0, p0.len() as int) =~= p0);
        assert(s.subrange(p0.len() as int + 1, s.len() as int) =~= join(rest, seq![c]));
        assert(split(s, c) =~= seq![p0] + rest);
        assert(seq![p0] + rest =~= parts);
    }
}

/// Writable tags are kept as they are by the tag cleaning.
proof fn lemma_clean_writable(tags: Seq<Seq<char>>)
    requires
        forall|k: int| 0 <= k < tags.len() ==> writable_tag(#[trigger] tags[k]),
    ensures
        clean_tags(tags) == tags,
    decreases tags.len(),
{
    if tags.len() > 0 {
        let init = tags.drop_last();
        assert forall|k: int| 0 <= k < init.len() implies writable_tag(#[trigger] init[k]) by {
            assert(init[k] == tags[k]);
        }
        lemma_clean_writable(init);
        assert(writable_tag(tags[tags.len() - 1]));
        assert(init.push(tags.last()) =~= tags);
    }
}

/// The text of writable tags joined with commas: no line break, and it ends
/// with what the last tag ends with.
proof fn lemma_join_tags_shape(tags: Seq<Seq<char>>)
    requires
        tags.len() > 0,
        forall|k: int| 0 <= k < tags.len() ==> writable_tag(#[trigger] tags[k]),
    ensures
        !join(tags, seq![',']).contains('\n'),
        join(tags, seq![',']).len() > 0,
        join(tags, seq![',']).last() == tags.last().last(),
    decreases tags.len(),
{
    assert(writable_tag(tags[tags.len() - 1]));
    if tags.len() == 1 {
        assert(writable_tag(tags[0]));
    } else {
        let init = tags.drop_last();
        assert forall|k: int| 0 <= k < init.len() implies writable_tag(#[trigger] init[k]) by {
            assert(init[k] == tags[k]);
        }
        lemma_join_tags_shape(init);
        let j = join(init, seq![',']);
        lemma_no_char_concat(j, seq![','], '\n');
        lemma_no_char_concat(j + seq![','], tags.last(), '\n');
    }
}

/// The tags comment of writable tags reads back as those tags.
pub proof fn lemma_tags_line_reads_back(tags: Seq<Seq<char>>)
    requires
        tags.len() > 0,
        forall|k: int| 0 <= k < tags.len() ==> writable_tag(#[trigger] tags[k]),
    ensures
        tags_line(tags_prefix() + join(tags, seq![','])) == Some(tags),
        !(tags_prefix() + join(tags, seq![','])).contains('\n'),
        (tags_prefix() + join(tags, seq![','])).last() != '\r',
{
    let body = join(tags, seq![',']);
    let t = tags_prefix() + body;
    lemma_join_tags_shape(tags);
    assert(writable_tag(tags[tags.len() - 1]));
    lemma_trimmed_ends(tags.last());
    assert(t.last() == body.last());
    assert(t[0] == '#');
    lemma_trim_unchanged(t);
    assert(t.subrange(0, 8) =~= tags_prefix());
    assert(t.subrange(8, t.len() as int) =~= body);
    assert forall|k: int| 0 <= k < tags.len() implies !(#[trigger] tags[k]).contains(',') by {
        assert(writable_tag(tags[k]));
    }
    lemma_split_join(tags, ',');
    lemma_clean_writable(tags);
    lemma_no_char_concat(tags_prefix(), body, '\n');
}

/// The written text of a writable alias, read after `ls`, adds the alias.
pub proof fn lemma_scan_formatted(ls: Seq<Seq<char>>, a: AliasView)
    requires
        writable(a),
        scan_lines(ls).1 is None,
    ensures
        lines(format_alias(a).push('\n')) == (if a.tags.len() == 0 {
            seq![alias_line_text(a)]
        } else {
            seq![tags_prefix() + join(a.tags, seq![',']), alias_line_text(a)]
        }),
        scan_lines(ls + lines(format_alias(a).push('\n'))) == (scan_lines(ls).0.push(a), None::<
            Seq<Seq<char>>,
        >),
{
    let al = alias_line_text(a);
    lemma_alias_line_reads_back(a);
    lemma_lines_single(al);
    assert(strip_cr(al) == al);
    let base = AliasView { name: a.name, command: a.command, tags: Seq::empty() };
    if a.tags.len() == 0 {
        assert(format_alias(a) == al);
        assert(ls + seq![al] =~= ls.push(al));
        lemma_scan_push(ls, al);
        assert(base =~= a);
    } else {
        let tl = tags_prefix() + join(a.tags, seq![',']);
        lemma_tags_line_reads_back(a.tags);
        lemma_lines_single(tl);
        assert(strip_cr(tl) == tl);
        let f = format_alias(a).push('\n');
        assert(f =~= tl.push('\n') + al.push('\n'));
        lemma_lines_append(tl.push('\n'), al.push('\n'));
        assert(lines(f) =~= seq![tl, al]);
        assert(ls + seq![tl, al] =~= ls.push(tl).push(al));
        lemma_scan_push(ls, tl);
        lemma_scan_push(ls.push(tl), al);
        assert(with_tags(base, a.tags) =~= a);
    }
}

/// Adding an alias to a configuration text and reading the text back gives
/// the aliases it had, then the new one, for an alias that can be written
/// and read back, unless the text ends with a tags comment (whose tags the
/// new alias would take).
pub proof fn lemma_added_alias_reads_back(content: Seq<char>, a: AliasView)
    requires
        writable(a),
        !ends_in_tags_comment(content),
    ensures
        parsed_aliases(added_content(content, a)) == parsed_aliases(content).push(a),
        !ends_in_tags_comment(added_content(content, a)),
{
    let e = ensure_final_newline(content);
    lemma_scan_final_newline(content);
    assert(added_content(content, a) =~= e + format_alias(a).push('\n'));
    lemma_lines_append(e, format_alias(a).push('\n'));
    lemma_scan_formatted(lines(e), a);
}

// ---------------------------------------------------------------------------
// What is read can be written back

/// `trim_end(s)` is a prefix of `s` that is empty or ends with a character
/// that is not white space.
proof fn lemma_trim_end_prefix(s: Seq<char>)
    ensures
        trim_end(s).len() <= s.len(),
        trim_end(s) == s.subrange(0, trim_end(s).len() as int),
        trim_end(s).len() > 0 ==> !is_ws(trim_end(s).last()),
    decreases s.len(),
{
    if s.len() > 0 && is_ws(s.last()) {
        lemma_trim_end_prefix(s.drop_last());
        assert(s.drop_last().subrange(0, trim_end(s).len() as int) =~= s.subrange(
            0,
            trim_end(s).len() as int,
        ));
    } else {
        assert(s.subrange(0, s.len() as int) =~= s);
    }
}

/// The trim of `s` is a piece of `s`, and trimming it again changes nothing.
pub proof fn lemma_trim_piece(s: Seq<char>)
    ensures
        exists|a: int, b: int| 0 <= a <= b <= s.len() && trim(s) == s.subrange(a, b),
        trim(trim(s)) == trim(s),
{
    lemma_trim_start_first(s);
    let y = trim_start(s);
    let a = s.len() - y.len();
    lemma_trim_end_prefix(y);
    let x = trim_end(y);
    assert(x == s.subrange(a, a + x.len())) by {
        assert(y.subrange(0, x.len() as int) =~= s.subrange(a, a + x.len()));
    }
    if x.len() > 0 {
        assert(x[0] == y[0]);
        lemma_trim_unchanged(x);
    } else {
        assert(trim(x) =~= x);
    }
}

/// A piece of a text without `c` holds no `c`.
pub proof fn lemma_piece_lacks(s: Seq<char>, a: int, b: int, c: char)
    requires
        0 <= a <= b <= s.len(),
        !s.contains(c),
    ensures
        !s.subrange(a, b).contains(c),
{
    if s.subrange(a, b).contains(c) {
        let j = choose|j: int| 0 <= j < b - a && s.subrange(a, b)[j] == c;
        assert(s[a + j] == c);
    }
}

proof fn lemma_trim_lacks(s: Seq<char>, c: char)
    requires
        !s.contains(c),
    ensures
        !trim(s).contains(c),
{
    lemma_trim_piece(s);
    let (a, b) = choose|a: int, b: int| 0 <= a <= b <= s.len() && trim(s) == s.subrange(a, b);
    lemma_piece_lacks(s, a, b, c);
}

/// The pieces of a split hold no separator, and nothing the text lacks.
proof fn lemma_split_pieces(s: Seq<char>, c: char, d: char)
    ensures
        forall|k: int| 0 <= k < split(s, c).len() ==> !(#[trigger] split(s, c)[k]).contains(c),
        !s.contains(d) ==> forall|k: int|
            0 <= k < split(s, c).len() ==> !(#[trigger] split(s, c)[k]).contains(d),
    decreases s.len(),
{
    lemma_find(s, c);
    match find(s, c) {
        None => {
            assert(split(s, c) =~= seq![s]);
            if s.contains(c) {
                let j = choose|j: int| 0 <= j < s.len() && s[j] == c;
                assert(s[j] != c);
            }
        },
        Some(i) => {
            let rest = s.subrange(i + 1, s.len() as int);
            lemma_split_pieces(rest, c, d);
            let head = s.subrange(0, i);
            assert(!head.contains(c)) by {
                if head.contains(c) {
                    let j = choose|j: int| 0 <= j < head.len() && head[j] == c;
                    assert(s[j] == c);
                }
            }
            if !s.contains(d) {
                lemma_piece_lacks(s, 0, i, d);
                lemma_piece_lacks(s, i + 1, s.len() as int, d);
            }
            assert(split(s, c) =~= seq![head] + split(rest, c));
            assert forall|k: int| 0 <= k < split(s, c).len() implies !(#[trigger] split(
                s,
                c,
            )[k]).contains(c) by {
                if k > 0 {
                    assert(split(s, c)[k] == split(rest, c)[k - 1]);
                }
            }
            if !s.contains(d) {
                assert forall|k: int| 0 <= k < split(s, c).len() implies !(#[trigger] split(
                    s,
                    c,
                )[k]).contains(d) by {
                    if k > 0 {
                        assert(split(s, c)[k] == split(rest, c)[k - 1]);
                    }
                }
            }
        },
    }
}

/// Cleaned pieces without commas or line breaks are writable tags.
proof fn lemma_clean_tags_writable(parts: Seq<Seq<char>>)
    requires
        forall|k: int| 0 <= k < parts.len() ==> !(#[trigger] parts[k]).contains(','),
        forall|k: int| 0 <= k < parts.len() ==> !(#[trigger] parts[k]).contains('\n'),
    ensures
        forall|k: int| 0 <= k < clean_tags(parts).len() ==> writable_tag(#[trigger] clean_tags(parts)[k]),
    decreases parts.len(),
{
    if parts.len() > 0 {
        let init = parts.drop_last();
        assert forall|k: int| 0 <= k < init.len() implies !(#[trigger] init[k]).contains(',') by {
            assert(init[k] == parts[k]);
        }
        assert forall|k: int| 0 <= k < init.len() implies !(#[trigger] init[k]).contains('\n') by {
            assert(init[k] == parts[k]);
        }
        lemma_clean_tags_writable(init);
        let t = trim(parts.last());
        assert(!parts[parts.len() - 1].contains(','));
        assert(!parts[parts.len() - 1].contains('\n'));
        lemma_trim_lacks(parts.last(), ',');
        lemma_trim_lacks(parts.last(), '\n');
        lemma_trim_piece(parts.last());
        let r = clean_tags(init);
        if t.len() > 0 {
            assert forall|k: int| 0 <= k < r.push(t).len() implies writable_tag(#[trigger] r.push(
                t,
            )[k]) by {
                if k < r.len() {
                    assert(r.push(t)[k] == r[k]);
                }
            }
        }
    }
}

/// The tags of a tags comment on a line without line breaks are writable.
pub proof fn lemma_read_tags_writable(l: Seq<char>)
    requires
        !l.contains('\n'),
        tags_line(l) is Some,
    ensures
        forall|k: int|
            0 <= k < tags_line(l)->0.len() ==> writable_tag(#[trigger] tags_line(l)->0[k]),
{
    let t = trim(l);
    lemma_trim_lacks(l, '\n');
    let body = t.subrange(8, t.len() as int);
    lemma_piece_lacks(t, 8, t.len() as int, '\n');
    lemma_split_pieces(body, ',', '\n');
    lemma_clean_tags_writable(split(body, ','));
}

/// The name and command of an alias line without line breaks can be written
/// back.
pub proof fn lemma_read_alias_writable(l: Seq<char>)
    requires
        !l.contains('\n'),
        alias_line(l) is Some,
    ensures
        ({
            let (n, c) = alias_line(l)->0;
            &&& n.len() > 0
            &&& !n.contains('=')
            &&& !n.contains('\n')
            &&& !c.contains('\n')
        }),
{
    let t = trim(l);
    lemma_trim_lacks(l, '\n');
    let rest = t.subrange(6, t.len() as int);
    lemma_piece_lacks(t, 6, t.len() as int, '\n');
    lemma_find(rest, '=');
    let eq = find(rest, '=')->0;
    let n = rest.subrange(0, eq);
    lemma_piece_lacks(rest, 0, eq, '\n');
    assert(!n.contains('=')) by {
        if n.contains('=') {
            let j = choose|j: int| 0 <= j < n.len() && n[j] == '=';
            assert(rest[j] == '=');
        }
    }
    let v = rest.subrange(eq + 1, rest.len() as int);
    lemma_piece_lacks(rest, eq + 1, rest.len() as int, '\n');
    let tv = trim(v);
    lemma_trim_lacks(v, '\n');
    if tv.len() > 0 && (tv[0] == '\'' || tv[0] == '"') {
        let q = tv[0];
        lemma_rfind(tv, q);
        let e = rfind(tv, q)->0;
        lemma_piece_lacks(tv, 1, e, '\n');
    }
}

/// The quoting law of command values: a value wrapped in single or double
/// quotes, with no quote of that kind inside, gives what is between the
/// quotes; a blank value gives nothing; any other value gives itself,
/// trimmed.
pub proof fn lemma_command_quotes(b: Seq<char>, q: char, v: Seq<char>)
    ensures
        (q == '\'' || q == '"') && !b.contains(q) ==> command_value(seq![q] + b + seq![q]) == Some(
            b,
        ),
        trim(v).len() == 0 ==> command_value(v) is None,
        trim(v).len() > 0 && trim(v)[0] != '\'' && trim(v)[0] != '"' ==> command_value(v) == Some(
            trim(v),
        ),
{
    if (q == '\'' || q == '"') && !b.contains(q) {
        let s = seq![q] + b + seq![q];
        assert(s[0] == q);
        assert(s.last() == q);
        lemma_trim_unchanged(s);
        lemma_rfind(s, q);
        match rfind(s, q) {
            Some(k) => {
                if k < s.len() - 1 {
                    assert(s[s.len() - 1] == q);
                }
                assert(k == s.len() - 1);
                assert(s.subrange(1, k) =~= b);
            },
            None => {
                assert(s[0] == q);
            },
        }
        assert(b.len() + 2 == s.len());
        if b.len() > 0 {
            assert forall|j: int| 1 <= j < s.len() - 1 implies s[j] != q by {
                assert(s[j] == b[j - 1]);
            }
        }
    }
}

} // verus!
