//! What reading a rewritten configuration text gives back: after an alias
//! is deleted or updated, the text lists the aliases that the change leaves.
use vstd::prelude::*;

use crate::alias::AliasView;
use crate::alias_parser::{
    added_all, alias_line, appended_lines, count_named, ensure_final_newline, format_alias,
    has_name, index_named, lemma_index_named, lemma_index_named_is, parsed_aliases,
    rebuild_lines, rebuilt_content, remove_named, replace_named, run_to_alias, scan_lines,
    tags_above_alias, tags_line, terminated, with_tags,
};
use crate::roundtrip::{
    ends_in_tags_comment, lemma_added_alias_reads_back, lemma_alias_line_reads_back,
    lemma_lines_append, lemma_lines_single, lemma_read_alias_writable, lemma_read_tags_writable,
    lemma_scan_final_newline, lemma_scan_formatted, lemma_tags_line_reads_back,
    lemma_trim_strip_cr, writable, writable_tag,
};
use crate::shell_config::{add_batch, batch_added, delete_batch, update_batch, updated_entry};
use crate::text::{find, join, lemma_find, lines, strip_cr};

verus! {

/// The alias read from an alias line, with the pending tags.
pub open spec fn read_alias(name: Seq<char>, cmd: Seq<char>, pending: Option<Seq<Seq<char>>>) -> AliasView {
    let a = AliasView { name, command: cmd, tags: Seq::empty() };
    match pending {
        Some(t) => with_tags(a, t),
        None => a,
    }
}

/// Reading lines from the first, given the tags of a tags comment just read.
pub open spec fn fwd(ls: Seq<Seq<char>>, pending: Option<Seq<Seq<char>>>) -> Seq<AliasView>
    decreases ls.len(),
{
    if ls.len() == 0 {
        Seq::empty()
    } else {
        let l = ls[0];
        match tags_line(l) {
            Some(t) => fwd(ls.drop_first(), Some(t)),
            None => match alias_line(l) {
                Some((n, c)) => seq![read_alias(n, c, pending)] + fwd(ls.drop_first(), None),
                None => fwd(ls.drop_first(), None),
            },
        }
    }
}

/// The pending tags after reading `ls` from the first.
pub open spec fn fwd_pending(ls: Seq<Seq<char>>, pending: Option<Seq<Seq<char>>>) -> Option<
    Seq<Seq<char>>,
>
    decreases ls.len(),
{
    if ls.len() == 0 {
        pending
    } else {
        let l = ls[0];
        match tags_line(l) {
            Some(t) => fwd_pending(ls.drop_first(), Some(t)),
            None => fwd_pending(ls.drop_first(), None),
        }
    }
}

/// Reading two blocks of lines one after the other.
pub proof fn lemma_fwd_append(a: Seq<Seq<char>>, b: Seq<Seq<char>>, p: Option<Seq<Seq<char>>>)
    ensures
        fwd(a + b, p) == fwd(a, p) + fwd(b, fwd_pending(a, p)),
        fwd_pending(a + b, p) == fwd_pending(b, fwd_pending(a, p)),
    decreases a.len(),
{
    if a.len() == 0 {
        assert(a + b =~= b);
        assert(fwd(a, p) + fwd(b, p) =~= fwd(b, p));
    } else {
        assert((a + b).drop_first() =~= a.drop_first() + b);
        assert((a + b)[0] == a[0]);
        let l = a[0];
        match tags_line(l) {
            Some(t) => {
                lemma_fwd_append(a.drop_first(), b, Some(t));
            },
            None => {
                lemma_fwd_append(a.drop_first(), b, None);
                match alias_line(l) {
                    Some((n, c)) => {
                        assert(seq![read_alias(n, c, p)] + (fwd(a.drop_first(), None) + fwd(
                            b,
                            fwd_pending(a.drop_first(), None),
                        )) =~= (seq![read_alias(n, c, p)] + fwd(a.drop_first(), None)) + fwd(
                            b,
                            fwd_pending(a.drop_first(), None),
                        ));
                    },
                    None => {},
                }
            },
        }
    }
}

/// Reading one line from the first.
proof fn lemma_fwd_one(l: Seq<char>, p: Option<Seq<Seq<char>>>)
    ensures
        fwd(seq![l], p) == match tags_line(l) {
            Some(_) => Seq::<AliasView>::empty(),
            None => match alias_line(l) {
                Some((n, c)) => seq![read_alias(n, c, p)],
                None => Seq::empty(),
            },
        },
        fwd_pending(seq![l], p) == match tags_line(l) {
            Some(t) => Some(t),
            None => None,
        },
{
    let ls = seq![l];
    let e = Seq::<Seq<char>>::empty();
    assert(ls.drop_first() =~= e);
    assert(ls[0] == l);
    assert(fwd(e, None) == Seq::<AliasView>::empty());
    assert(fwd_pending(e, None) == None::<Seq<Seq<char>>>);
    match tags_line(l) {
        Some(t) => {
            assert(fwd(e, Some(t)) == Seq::<AliasView>::empty());
            assert(fwd_pending(e, Some(t)) == Some(t));
        },
        None => match alias_line(l) {
            Some((n, c)) => {
                assert(seq![read_alias(n, c, p)] + Seq::<AliasView>::empty() =~= seq![
                    read_alias(n, c, p),
                ]);
            },
            None => {},
        },
    }
}

/// Reading lines from the first agrees with reading them from the last.
pub proof fn lemma_scan_is_fwd(ls: Seq<Seq<char>>)
    ensures
        scan_lines(ls).0 == fwd(ls, None),
        scan_lines(ls).1 == fwd_pending(ls, None),
    decreases ls.len(),
{
    if ls.len() > 0 {
        let init = ls.drop_last();
        let l = ls.last();
        lemma_scan_is_fwd(init);
        assert(init + seq![l] =~= ls);
        lemma_fwd_append(init, seq![l], None);
        lemma_fwd_one(l, fwd_pending(init, None));
        let pend = fwd_pending(init, None);
        match tags_line(l) {
            Some(t) => {
                assert(fwd(init, None) + Seq::<AliasView>::empty() =~= fwd(init, None));
            },
            None => match alias_line(l) {
                Some((n, c)) => {
                    assert(read_alias(n, c, pend) == match pend {
                        Some(t) => with_tags(AliasView { name: n, command: c, tags: Seq::empty() }, t),
                        None => AliasView { name: n, command: c, tags: Seq::empty() },
                    });
                    assert(fwd(init, None) + seq![read_alias(n, c, pend)] =~= fwd(init, None).push(
                        read_alias(n, c, pend),
                    ));
                },
                None => {
                    assert(fwd(init, None) + Seq::<AliasView>::empty() =~= fwd(init, None));
                },
            },
        }
    }
}

/// The lines of each text of `texts`, each ended by a line break.
pub open spec fn lines_each(texts: Seq<Seq<char>>) -> Seq<Seq<char>>
    decreases texts.len(),
{
    if texts.len() == 0 {
        Seq::empty()
    } else {
        lines_each(texts.drop_last()) + lines(texts.last().push('\n'))
    }
}

proof fn lemma_lines_each_append(a: Seq<Seq<char>>, b: Seq<Seq<char>>)
    ensures
        lines_each(a + b) == lines_each(a) + lines_each(b),
    decreases b.len(),
{
    if b.len() == 0 {
        assert(a + b =~= a);
        assert(lines_each(a) + lines_each(b) =~= lines_each(a));
    } else {
        lemma_lines_each_append(a, b.drop_last());
        assert((a + b).drop_last() =~= a + b.drop_last());
        assert((a + b).last() == b.last());
        assert(lines_each(a) + (lines_each(b.drop_last()) + lines(b.last().push('\n')))
            =~= (lines_each(a) + lines_each(b.drop_last())) + lines(b.last().push('\n')));
    }
}

/// The lines of texts joined with line breaks, with a final one.
proof fn lemma_lines_join(texts: Seq<Seq<char>>)
    requires
        texts.len() > 0,
    ensures
        lines(join(texts, seq!['\n']).push('\n')) == lines_each(texts),
    decreases texts.len(),
{
    if texts.len() == 1 {
        assert(texts.drop_last() =~= Seq::<Seq<char>>::empty());
        assert(lines_each(texts.drop_last()) + lines(texts.last().push('\n')) =~= lines(
            texts.last().push('\n'),
        ));
    } else {
        let init = texts.drop_last();
        lemma_lines_join(init);
        let j = join(init, seq!['\n']);
        assert(join(texts, seq!['\n']).push('\n') =~= j.push('\n') + texts.last().push('\n'));
        lemma_lines_append(j.push('\n'), texts.last().push('\n'));
    }
}

/// No piece that `lines` gives holds a line break.
pub proof fn lemma_lines_no_break(s: Seq<char>)
    ensures
        forall|k: int| 0 <= k < lines(s).len() ==> !(#[trigger] lines(s)[k]).contains('\n'),
    decreases s.len(),
{
    if s.len() > 0 {
        lemma_find(s, '\n');
        match find(s, '\n') {
            None => {
                assert(lines(s) =~= seq![s]);
                if s.contains('\n') {
                    let j = choose|j: int| 0 <= j < s.len() && s[j] == '\n';
                    assert(s[j] != '\n');
                }
            },
            Some(i) => {
                let rest = s.subrange(i + 1, s.len() as int);
                lemma_lines_no_break(rest);
                let head = strip_cr(s.subrange(0, i));
                assert(!head.contains('\n')) by {
                    if head.contains('\n') {
                        let j = choose|j: int| 0 <= j < head.len() && head[j] == '\n';
                        assert(s[j] == '\n');
                    }
                }
                assert(lines(s) =~= seq![head] + lines(rest));
                assert forall|k: int| 0 <= k < lines(s).len() implies !(#[trigger] lines(
                    s,
                )[k]).contains('\n') by {
                    if k > 0 {
                        assert(lines(s)[k] == lines(rest)[k - 1]);
                    }
                }
            },
        }
    }
}

/// Reading back texts written one per line, each ended by a line break, is
/// reading the lines of each text in turn.
pub proof fn lemma_read_joined(texts: Seq<Seq<char>>)
    ensures
        scan_lines(lines(terminated(texts))).0 == fwd(lines_each(texts), None),
{
    if texts.len() == 0 {
        assert(lines(terminated(texts)) =~= Seq::<Seq<char>>::empty());
        assert(lines_each(texts) =~= Seq::<Seq<char>>::empty());
        lemma_scan_is_fwd(Seq::<Seq<char>>::empty());
    } else {
        lemma_lines_join(texts);
        lemma_scan_is_fwd(lines_each(texts));
    }
}

/// The last line of `ls`, if any, is not a tags comment.
pub open spec fn no_final_tags(ls: Seq<Seq<char>>) -> bool {
    ls.len() == 0 || tags_line(ls.last()) is None
}

/// Reading lines that end with a tags comment leaves tags pending.
proof fn lemma_pending_last(ls: Seq<Seq<char>>, p: Option<Seq<Seq<char>>>)
    requires
        !no_final_tags(ls),
    ensures
        fwd_pending(ls, p) is Some,
{
    let init = ls.drop_last();
    let l = ls.last();
    assert(init + seq![l] =~= ls);
    lemma_fwd_append(init, seq![l], p);
    lemma_fwd_one(l, fwd_pending(init, p));
}

/// For each alias of `p`, in order, the first alias of `new` with its name,
/// when `new` has one.
pub open spec fn kept_aliases(p: Seq<AliasView>, new: Seq<AliasView>) -> Seq<AliasView>
    decreases p.len(),
{
    if p.len() == 0 {
        Seq::empty()
    } else {
        let rest = kept_aliases(p.drop_last(), new);
        match index_named(new, p.last().name) {
            Some(k) => rest.push(new[k]),
            None => rest,
        }
    }
}

/// The names of the aliases of `p` that `new` also has, in order.
pub open spec fn shared_names(p: Seq<AliasView>, new: Seq<AliasView>) -> Seq<Seq<char>>
    decreases p.len(),
{
    if p.len() == 0 {
        Seq::empty()
    } else {
        let rest = shared_names(p.drop_last(), new);
        if has_name(new, p.last().name) {
            rest.push(p.last().name)
        } else {
            rest
        }
    }
}

/// For the first `k` aliases of `new` whose names `used` lacks, the first
/// alias of `new` with that name.
pub open spec fn appended_aliases(new: Seq<AliasView>, k: int, used: Seq<Seq<char>>) -> Seq<
    AliasView,
>
    decreases k,
{
    if k <= 0 || k > new.len() {
        Seq::empty()
    } else {
        let rest = appended_aliases(new, k - 1, used);
        let n = new[k - 1].name;
        if used.contains(n) {
            rest
        } else {
            match index_named(new, n) {
                Some(j) => rest.push(new[j]),
                None => rest,
            }
        }
    }
}

proof fn lemma_kept_cons(x: AliasView, p: Seq<AliasView>, new: Seq<AliasView>)
    ensures
        kept_aliases(seq![x] + p, new) == match index_named(new, x.name) {
            Some(k) => seq![new[k]] + kept_aliases(p, new),
            None => kept_aliases(p, new),
        },
        shared_names(seq![x] + p, new) == if has_name(new, x.name) {
            seq![x.name] + shared_names(p, new)
        } else {
            shared_names(p, new)
        },
    decreases p.len(),
{
    let xp = seq![x] + p;
    let ea = Seq::<AliasView>::empty();
    let en = Seq::<Seq<char>>::empty();
    if p.len() == 0 {
        assert(xp =~= seq![x]);
        assert(xp.drop_last() =~= ea);
        assert(xp.last() == x);
        assert(kept_aliases(ea, new) == ea);
        assert(shared_names(ea, new) == en);
        assert(kept_aliases(p, new) == ea);
        assert(shared_names(p, new) == en);
        match index_named(new, x.name) {
            Some(k) => {
                assert(kept_aliases(xp, new) == ea.push(new[k]));
                assert(ea.push(new[k]) =~= seq![new[k]] + ea);
            },
            None => {
                assert(kept_aliases(xp, new) == ea);
            },
        }
        if has_name(new, x.name) {
            assert(shared_names(xp, new) == en.push(x.name));
            assert(en.push(x.name) =~= seq![x.name] + en);
        } else {
            assert(shared_names(xp, new) == en);
        }
    } else {
        let q = p.drop_last();
        let y = p.last();
        lemma_kept_cons(x, q, new);
        assert(xp.drop_last() =~= seq![x] + q);
        assert(xp.last() == y);
        let kq = kept_aliases(q, new);
        let sq = shared_names(q, new);
        let kxq = kept_aliases(seq![x] + q, new);
        let sxq = shared_names(seq![x] + q, new);
        assert(kept_aliases(xp, new) == match index_named(new, y.name) {
            Some(j) => kxq.push(new[j]),
            None => kxq,
        });
        assert(kept_aliases(p, new) == match index_named(new, y.name) {
            Some(j) => kq.push(new[j]),
            None => kq,
        });
        assert(shared_names(xp, new) == if has_name(new, y.name) {
            sxq.push(y.name)
        } else {
            sxq
        });
        assert(shared_names(p, new) == if has_name(new, y.name) {
            sq.push(y.name)
        } else {
            sq
        });
        match index_named(new, x.name) {
            Some(k) => {
                match index_named(new, y.name) {
                    Some(j) => {
                        assert((seq![new[k]] + kq).push(new[j]) =~= seq![new[k]] + kq.push(new[j]));
                    },
                    None => {},
                }
            },
            None => {},
        }
        if has_name(new, x.name) {
            if has_name(new, y.name) {
                assert((seq![x.name] + sq).push(y.name) =~= seq![x.name] + sq.push(y.name));
            }
        }
    }
}

proof fn lemma_lines_each_single(t: Seq<char>)
    ensures
        lines_each(seq![t]) == lines(t.push('\n')),
{
    let e = Seq::<Seq<char>>::empty();
    assert(seq![t].drop_last() =~= e);
    assert(lines_each(e) == e);
    assert(e + lines(t.push('\n')) =~= lines(t.push('\n')));
}

/// Reading the lines written for a writable alias gives the alias, and
/// leaves no tags pending.
proof fn lemma_fwd_formatted(a: AliasView)
    requires
        writable(a),
    ensures
        fwd(lines(format_alias(a).push('\n')), None) == seq![a],
        fwd_pending(lines(format_alias(a).push('\n')), None) is None,
        format_alias(a).len() > 0 && format_alias(a).last() != '\n',
{
    let e = Seq::<Seq<char>>::empty();
    assert(scan_lines(e).1 is None);
    lemma_scan_formatted(e, a);
    assert(e + lines(format_alias(a).push('\n')) =~= lines(format_alias(a).push('\n')));
    lemma_scan_is_fwd(lines(format_alias(a).push('\n')));
    assert(scan_lines(e).0.push(a) =~= seq![a]);
    lemma_alias_line_reads_back(a);
    if a.tags.len() > 0 {
        lemma_tags_line_reads_back(a.tags);
    }
}

/// Reading the lines of a written alias before more lines.
proof fn lemma_fwd_formatted_before(a: AliasView, rest: Seq<Seq<char>>)
    requires
        writable(a),
    ensures
        fwd(lines_each(seq![format_alias(a)] + rest), None) == seq![a] + fwd(lines_each(rest), None),
        fwd_pending(lines_each(seq![format_alias(a)] + rest), None) == fwd_pending(
            lines_each(rest),
            None,
        ),
{
    let f = format_alias(a);
    lemma_fwd_formatted(a);
    lemma_lines_each_append(seq![f], rest);
    lemma_lines_each_single(f);
    lemma_fwd_append(lines(f.push('\n')), lines_each(rest), None);
}

/// Reading a line that is neither a tags comment nor an alias line before
/// more lines.
proof fn lemma_fwd_plain_before(l: Seq<char>, rest: Seq<Seq<char>>, q: Option<Seq<Seq<char>>>)
    requires
        !l.contains('\n'),
        tags_line(l) is None,
        alias_line(l) is None,
    ensures
        fwd(lines_each(seq![l] + rest), q) == fwd(lines_each(rest), None),
        fwd_pending(lines_each(seq![l] + rest), q) == fwd_pending(lines_each(rest), None),
{
    lemma_lines_each_append(seq![l], rest);
    lemma_lines_each_single(l);
    lemma_lines_single(l);
    lemma_trim_strip_cr(l);
    let y = strip_cr(l);
    lemma_fwd_one(y, q);
    lemma_fwd_append(seq![y], lines_each(rest), q);
    assert(Seq::<AliasView>::empty() + fwd(lines_each(rest), None) =~= fwd(lines_each(rest), None));
}

/// Reading a tags comment before more lines: its tags are pending for them.
proof fn lemma_fwd_tags_before(l: Seq<char>, rest: Seq<Seq<char>>, q: Option<Seq<Seq<char>>>)
    requires
        !l.contains('\n'),
        tags_line(l) is Some,
    ensures
        fwd(lines_each(seq![l] + rest), q) == fwd(lines_each(rest), tags_line(l)),
        fwd_pending(lines_each(seq![l] + rest), q) == fwd_pending(lines_each(rest), tags_line(l)),
{
    lemma_lines_each_append(seq![l], rest);
    lemma_lines_each_single(l);
    lemma_lines_single(l);
    lemma_trim_strip_cr(l);
    let y = strip_cr(l);
    assert(tags_line(y) == tags_line(l));
    lemma_fwd_one(y, q);
    lemma_fwd_append(seq![y], lines_each(rest), q);
    assert(Seq::<AliasView>::empty() + fwd(lines_each(rest), tags_line(l)) =~= fwd(
        lines_each(rest),
        tags_line(l),
    ));
}

/// Where no alias line follows (through tags comments), the pending tags
/// make no difference to what the lines read as.
proof fn lemma_fwd_indep(ls: Seq<Seq<char>>, j: int, p: Option<Seq<Seq<char>>>)
    requires
        0 <= j <= ls.len(),
        !run_to_alias(ls, j),
    ensures
        fwd(ls.subrange(j, ls.len() as int), p) == fwd(ls.subrange(j, ls.len() as int), None),
{
    let s = ls.subrange(j, ls.len() as int);
    if j < ls.len() {
        assert(s[0] == ls[j]);
    }
}

/// A tags comment above an alias line makes no difference to the aliases
/// kept or the names met: only their names count.
proof fn lemma_drop_tags(ls: Seq<Seq<char>>, i: int, new: Seq<AliasView>)
    requires
        tags_above_alias(ls, i),
    ensures
        kept_aliases(fwd(ls.subrange(i, ls.len() as int), None), new) == kept_aliases(
            fwd(ls.subrange(i + 1, ls.len() as int), None),
            new,
        ),
        shared_names(fwd(ls.subrange(i, ls.len() as int), None), new) == shared_names(
            fwd(ls.subrange(i + 1, ls.len() as int), None),
            new,
        ),
{
    let n = ls.len() as int;
    let s0 = ls.subrange(i, n);
    let s1 = ls.subrange(i + 1, n);
    let t = tags_line(ls[i])->0;
    assert(s0[0] == ls[i]);
    assert(s0.drop_first() =~= s1);
    assert(fwd(s0, None) == fwd(s1, Some(t)));
    assert(i + 1 < n);
    assert(s1[0] == ls[i + 1]);
    assert(s1.drop_first() =~= ls.subrange(i + 2, n));
    let rest = fwd(ls.subrange(i + 2, n), None);
    match tags_line(ls[i + 1]) {
        Some(t2) => {
            assert(fwd(s1, Some(t)) == fwd(s1, None));
        },
        None => {
            let (nm, cmd) = alias_line(ls[i + 1])->0;
            let x = read_alias(nm, cmd, Some(t));
            let y = read_alias(nm, cmd, None);
            assert(fwd(s1, Some(t)) == seq![x] + rest);
            assert(fwd(s1, None) == seq![y] + rest);
            lemma_kept_cons(x, rest, new);
            lemma_kept_cons(y, rest, new);
        },
    }
}

/// The lines kept and written by a rebuild, from line `i` on, read back
/// (after tags `q` left pending by the lines written before) as the kept
/// aliases of what those lines read as; the names met there are the shared
/// names. Tags pending from before make no difference there unless an alias
/// line is met first, and nothing is left pending at the end unless the last
/// line is a tags comment.
proof fn lemma_rebuild_reads(
    ls: Seq<Seq<char>>,
    i: int,
    new: Seq<AliasView>,
    q: Option<Seq<Seq<char>>>,
)
    requires
        0 <= i <= ls.len(),
        q is Some ==> !run_to_alias(ls, i),
        forall|k: int| 0 <= k < new.len() ==> writable(#[trigger] new[k]),
        forall|k: int| 0 <= k < ls.len() ==> !(#[trigger] ls[k]).contains('\n'),
    ensures
        fwd(lines_each(rebuild_lines(ls, i, new).0), q) == kept_aliases(
            fwd(ls.subrange(i, ls.len() as int), None),
            new,
        ),
        (q is None || i < ls.len()) && no_final_tags(ls) ==> fwd_pending(
            lines_each(rebuild_lines(ls, i, new).0),
            q,
        ) is None,
        rebuild_lines(ls, i, new).1 == shared_names(fwd(ls.subrange(i, ls.len() as int), None), new),
    decreases ls.len() - i,
{
    let n = ls.len() as int;
    let s = ls.subrange(i, n);
    let empty_lines = Seq::<Seq<char>>::empty();
    if i >= n {
        assert(s =~= empty_lines);
        assert(rebuild_lines(ls, i, new).0 == empty_lines);
        assert(lines_each(empty_lines) == empty_lines);
        assert(kept_aliases(Seq::<AliasView>::empty(), new) == Seq::<AliasView>::empty());
        assert(shared_names(Seq::<AliasView>::empty(), new) == empty_lines);
    } else {
        let l = ls[i];
        assert(s[0] == l);
        assert(s.drop_first() =~= ls.subrange(i + 1, n));
        let out = rebuild_lines(ls, i + 1, new).0;
        let rest = fwd(ls.subrange(i + 1, n), None);
        if tags_above_alias(ls, i) {
            assert(run_to_alias(ls, i));
            lemma_rebuild_reads(ls, i + 1, new, None);
            lemma_drop_tags(ls, i, new);
        } else if tags_line(l) is Some {
            let t = tags_line(l)->0;
            assert(!run_to_alias(ls, i + 1));
            lemma_rebuild_reads(ls, i + 1, new, Some(t));
            assert(rebuild_lines(ls, i, new).0 == seq![l] + out);
            lemma_fwd_tags_before(l, out, q);
            assert(fwd(s, None) == fwd(ls.subrange(i + 1, n), Some(t)));
            lemma_fwd_indep(ls, i + 1, Some(t));
            if no_final_tags(ls) {
                assert(i + 1 < n) by {
                    if i + 1 >= n {
                        assert(ls.last() == l);
                    }
                }
            }
        } else {
            lemma_rebuild_reads(ls, i + 1, new, None);
            match alias_line(l) {
                Some((nm, cmd)) => {
                    assert(run_to_alias(ls, i));
                    let x = read_alias(nm, cmd, None);
                    assert(fwd(s, None) == seq![x] + rest);
                    lemma_kept_cons(x, rest, new);
                    lemma_index_named(new, nm);
                    match index_named(new, nm) {
                        Some(k) => {
                            assert(rebuild_lines(ls, i, new).0 == seq![format_alias(new[k])] + out);
                            lemma_fwd_formatted_before(new[k], out);
                        },
                        None => {},
                    }
                },
                None => {
                    assert(fwd(s, None) == rest);
                    assert(rebuild_lines(ls, i, new).0 == seq![l] + out);
                    lemma_fwd_plain_before(l, out, q);
                },
            }
        }
    }
}

/// The aliases appended by a rebuild read back as the appended aliases.
proof fn lemma_appended_reads(new: Seq<AliasView>, k: int, used: Seq<Seq<char>>)
    requires
        0 <= k <= new.len(),
        forall|j: int| 0 <= j < new.len() ==> writable(#[trigger] new[j]),
    ensures
        fwd(lines_each(appended_lines(new, k, used)), None) == appended_aliases(new, k, used),
        fwd_pending(lines_each(appended_lines(new, k, used)), None) is None,
        appended_lines(new, k, used).len() == appended_aliases(new, k, used).len(),
        forall|j: int|
            0 <= j < appended_lines(new, k, used).len() ==> (#[trigger] appended_lines(
                new,
                k,
                used,
            )[j]).len() == 0 || appended_lines(new, k, used)[j].last() != '\n',
    decreases k,
{
    let e = Seq::<Seq<char>>::empty();
    if k == 0 {
        assert(appended_lines(new, k, used) == e);
        assert(lines_each(e) == e);
    } else {
        lemma_appended_reads(new, k - 1, used);
        let a = appended_lines(new, k - 1, used);
        let nm = new[k - 1].name;
        if !used.contains(nm) {
            lemma_index_named(new, nm);
            let j = index_named(new, nm)->0;
            let f = format_alias(new[j]);
            assert(appended_lines(new, k, used) == a.push(f));
            assert(a.push(f).drop_last() =~= a);
            assert(lines_each(a.push(f)) == lines_each(a) + lines(f.push('\n')));
            lemma_fwd_formatted(new[j]);
            lemma_fwd_append(lines_each(a), lines(f.push('\n')), None);
            assert(appended_aliases(new, k - 1, used) + seq![new[j]] =~= appended_aliases(
                new,
                k - 1,
                used,
            ).push(new[j]));
            assert forall|i: int| 0 <= i < a.push(f).len() implies (#[trigger] a.push(f)[i]).len()
                == 0 || a.push(f)[i].last() != '\n' by {
                if i < a.len() {
                    assert(a.push(f)[i] == a[i]);
                }
            }
        }
    }
}

/// A rebuilt configuration text reads back as: for each alias of the
/// old text, in order, the first alias of the new list with its name
/// (nothing when the list lacks the name), then the aliases of the list whose
/// names the old text did not have. This holds when the aliases of the
/// list can be written and read back, and, where aliases are appended, the
/// old text does not end with a tags comment (whose tags the first appended
/// alias would take).
pub proof fn lemma_rebuilt_reads_back(content: Seq<char>, new: Seq<AliasView>)
    requires
        forall|k: int| 0 <= k < new.len() ==> writable(#[trigger] new[k]),
        !ends_in_tags_comment(content) || appended_aliases(
            new,
            new.len() as int,
            shared_names(parsed_aliases(content), new),
        ).len() == 0,
    ensures
        parsed_aliases(rebuilt_content(content, new)) == kept_aliases(parsed_aliases(content), new)
            + appended_aliases(new, new.len() as int, shared_names(parsed_aliases(content), new)),
{
    let ls = lines(content);
    lemma_lines_no_break(content);
    assert(ls.subrange(0, ls.len() as int) =~= ls);
    lemma_rebuild_reads(ls, 0, new, None);
    lemma_scan_is_fwd(ls);
    let kept = rebuild_lines(ls, 0, new).0;
    let used = rebuild_lines(ls, 0, new).1;
    let app = appended_lines(new, new.len() as int, used);
    lemma_appended_reads(new, new.len() as int, used);
    let texts = kept + app;
    lemma_read_joined(texts);
    lemma_lines_each_append(kept, app);
    lemma_fwd_append(lines_each(kept), lines_each(app), None);
    let aa = appended_aliases(new, new.len() as int, used);
    if !ends_in_tags_comment(content) {
        if !no_final_tags(ls) {
            lemma_pending_last(ls, None);
        }
    } else {
        assert(app.len() == 0);
        assert(app =~= Seq::<Seq<char>>::empty());
        assert(lines_each(app) == Seq::<Seq<char>>::empty());
        assert(aa =~= Seq::<AliasView>::empty());
        let pend = fwd_pending(lines_each(kept), None);
        assert(fwd(lines_each(app), pend) == Seq::<AliasView>::empty());
    }
}

/// The formatted line (or lines, with a tags comment) of each alias.
pub open spec fn formatted_lines(v: Seq<AliasView>) -> Seq<Seq<char>> {
    v.map_values(|a: AliasView| format_alias(a))
}

/// Reading the lines written for writable aliases gives the aliases back,
/// with no tags left pending.
proof fn lemma_fwd_formatted_list(v: Seq<AliasView>)
    requires
        forall|k: int| 0 <= k < v.len() ==> writable(#[trigger] v[k]),
    ensures
        fwd(lines_each(formatted_lines(v)), None) == v,
        fwd_pending(lines_each(formatted_lines(v)), None) is None,
    decreases v.len(),
{
    let fl = formatted_lines(v);
    if v.len() == 0 {
        assert(fl =~= Seq::<Seq<char>>::empty());
        assert(lines_each(fl) == Seq::<Seq<char>>::empty());
        assert(fwd(lines_each(fl), None) =~= v);
    } else {
        let init = v.drop_last();
        let a = v.last();
        assert forall|k: int| 0 <= k < init.len() implies writable(#[trigger] init[k]) by {
            assert(init[k] == v[k]);
        }
        assert(writable(v[v.len() - 1]));
        lemma_fwd_formatted_list(init);
        let f = format_alias(a);
        assert(fl.drop_last() =~= formatted_lines(init));
        assert(fl.last() == f);
        assert(lines_each(fl) == lines_each(formatted_lines(init)) + lines(f.push('\n')));
        lemma_fwd_formatted(a);
        lemma_fwd_append(lines_each(formatted_lines(init)), lines(f.push('\n')), None);
        assert(init + seq![a] =~= v);
    }
}

/// Aliases written one per line and joined with line breaks read back as
/// the same list, for aliases that can be written and read back.
pub proof fn lemma_formatted_list_reads_back(v: Seq<AliasView>)
    requires
        forall|k: int| 0 <= k < v.len() ==> writable(#[trigger] v[k]),
    ensures
        parsed_aliases(join(formatted_lines(v), seq!['\n'])) == v,
{
    let fl = formatted_lines(v);
    let x = join(fl, seq!['\n']);
    if v.len() == 0 {
        assert(fl =~= Seq::<Seq<char>>::empty());
        assert(x == Seq::<char>::empty());
        assert(lines(x) =~= Seq::<Seq<char>>::empty());
        lemma_scan_is_fwd(Seq::<Seq<char>>::empty());
        assert(parsed_aliases(x) =~= v);
    } else {
        let a = v.last();
        assert(writable(v[v.len() - 1]));
        lemma_fwd_formatted(a);
        assert(fl.last() == format_alias(a));
        if fl.len() == 1 {
            assert(x == fl[0]);
        } else {
            assert(x == join(fl.drop_last(), seq!['\n']) + seq!['\n'] + fl.last());
        }
        assert(x.len() > 0 && x.last() == fl.last().last());
        assert(ensure_final_newline(x) == x.push('\n'));
        lemma_scan_final_newline(x);
        lemma_lines_join(fl);
        lemma_scan_is_fwd(lines_each(fl));
        lemma_fwd_formatted_list(v);
    }
}

/// Pending tags that can be written back.
pub open spec fn tags_writable(p: Option<Seq<Seq<char>>>) -> bool {
    match p {
        Some(t) => forall|k: int| 0 <= k < t.len() ==> writable_tag(#[trigger] t[k]),
        None => true,
    }
}

proof fn lemma_fwd_writable(ls: Seq<Seq<char>>, p: Option<Seq<Seq<char>>>)
    requires
        forall|k: int| 0 <= k < ls.len() ==> !(#[trigger] ls[k]).contains('\n'),
        tags_writable(p),
    ensures
        forall|k: int| 0 <= k < fwd(ls, p).len() ==> writable(#[trigger] fwd(ls, p)[k]),
    decreases ls.len(),
{
    if ls.len() > 0 {
        let l = ls[0];
        let rest = ls.drop_first();
        assert forall|k: int| 0 <= k < rest.len() implies !(#[trigger] rest[k]).contains('\n') by {
            assert(rest[k] == ls[k + 1]);
        }
        assert(!ls[0].contains('\n'));
        match tags_line(l) {
            Some(t) => {
                lemma_read_tags_writable(l);
                lemma_fwd_writable(rest, Some(t));
                assert(fwd(ls, p) == fwd(rest, Some(t)));
            },
            None => {
                lemma_fwd_writable(rest, None);
                match alias_line(l) {
                    Some((n, c)) => {
                        lemma_read_alias_writable(l);
                        let x = read_alias(n, c, p);
                        assert(writable(x));
                        let r = fwd(rest, None);
                        assert(fwd(ls, p) == seq![x] + r);
                        assert forall|k: int| 0 <= k < (seq![x] + r).len() implies writable(
                            #[trigger] (seq![x] + r)[k],
                        ) by {
                            if k > 0 {
                                assert((seq![x] + r)[k] == r[k - 1]);
                            }
                        }
                    },
                    None => {
                        assert(fwd(ls, p) == fwd(rest, None));
                    },
                }
            },
        }
    }
}

/// Every alias read from a configuration text can be written back.
pub proof fn lemma_parsed_writable(content: Seq<char>)
    ensures
        forall|k: int|
            0 <= k < parsed_aliases(content).len() ==> writable(#[trigger] parsed_aliases(content)[k]),
{
    lemma_lines_no_break(content);
    lemma_scan_is_fwd(lines(content));
    lemma_fwd_writable(lines(content), None);
}

/// No two aliases of `v` share a name.
pub open spec fn unique_names(v: Seq<AliasView>) -> bool {
    forall|i: int, j: int| 0 <= i < j < v.len() ==> #[trigger] v[i].name != #[trigger] v[j].name
}

/// Each alias that `remove_named` keeps is an alias of `v` not named `n`.
proof fn lemma_remove_named_from(v: Seq<AliasView>, n: Seq<char>)
    ensures
        forall|k: int|
            0 <= k < remove_named(v, n).len() ==> (#[trigger] remove_named(v, n)[k]).name != n
                && exists|j: int| 0 <= j < v.len() && v[j] == remove_named(v, n)[k],
    decreases v.len(),
{
    if v.len() > 0 {
        let w = v.drop_last();
        let x = v.last();
        lemma_remove_named_from(w, n);
        let r0 = remove_named(w, n);
        let r = remove_named(v, n);
        assert forall|k: int| 0 <= k < r.len() implies (#[trigger] r[k]).name != n && exists|j: int|
            0 <= j < v.len() && v[j] == r[k] by {
            if k < r0.len() {
                assert(r[k] == r0[k]);
                let j = choose|j: int| 0 <= j < w.len() && w[j] == r0[k];
                assert(v[j] == w[j]);
            } else {
                assert(r[k] == x);
                assert(v[v.len() - 1] == x);
            }
        }
    }
}

/// `remove_named` keeps every alias of `v` not named `n`.
proof fn lemma_remove_named_keeps(v: Seq<AliasView>, n: Seq<char>)
    ensures
        forall|j: int|
            0 <= j < v.len() && (#[trigger] v[j]).name != n ==> exists|k: int|
                0 <= k < remove_named(v, n).len() && remove_named(v, n)[k] == v[j],
    decreases v.len(),
{
    if v.len() > 0 {
        let w = v.drop_last();
        let x = v.last();
        lemma_remove_named_keeps(w, n);
        let r0 = remove_named(w, n);
        let r = remove_named(v, n);
        assert forall|j: int| 0 <= j < v.len() && (#[trigger] v[j]).name != n implies exists|k: int|
            0 <= k < r.len() && r[k] == v[j] by {
            if j < w.len() {
                assert(w[j] == v[j]);
                let k = choose|k: int| 0 <= k < r0.len() && r0[k] == w[j];
                assert(r[k] == r0[k]);
            } else {
                assert(r[r.len() - 1] == x);
            }
        }
    }
}

/// `remove_named` keeps names unique.
proof fn lemma_remove_named_unique(v: Seq<AliasView>, n: Seq<char>)
    requires
        unique_names(v),
    ensures
        unique_names(remove_named(v, n)),
    decreases v.len(),
{
    if v.len() > 0 {
        let w = v.drop_last();
        let x = v.last();
        assert(unique_names(w)) by {
            assert forall|i: int, j: int| 0 <= i < j < w.len() implies #[trigger] w[i].name
                != #[trigger] w[j].name by {
                assert(v[i].name != v[j].name);
            }
        }
        lemma_remove_named_unique(w, n);
        lemma_remove_named_from(w, n);
        let r0 = remove_named(w, n);
        let r = remove_named(v, n);
        if x.name != n {
            assert forall|i: int, j: int| 0 <= i < j < r.len() implies #[trigger] r[i].name
                != #[trigger] r[j].name by {
                assert(r[i] == r0[i]);
                if j == r.len() - 1 {
                    let a = choose|a: int| 0 <= a < w.len() && w[a] == r0[i];
                    assert(v[a] == w[a]);
                    assert(v[a].name != v[v.len() - 1].name);
                } else {
                    assert(r[j] == r0[j]);
                }
            }
        }
    }
}

/// The kept aliases are the aliases not named `n` when the new list gives
/// back each other alias as it is and lacks `n`.
proof fn lemma_kept_identity(p: Seq<AliasView>, new: Seq<AliasView>, n: Seq<char>)
    requires
        forall|j: int|
            0 <= j < p.len() ==> if (#[trigger] p[j]).name == n {
                index_named(new, p[j].name) is None
            } else {
                index_named(new, p[j].name) matches Some(k) && new[k] == p[j]
            },
    ensures
        kept_aliases(p, new) == remove_named(p, n),
    decreases p.len(),
{
    if p.len() > 0 {
        let w = p.drop_last();
        assert forall|j: int| 0 <= j < w.len() implies if (#[trigger] w[j]).name == n {
            index_named(new, w[j].name) is None
        } else {
            index_named(new, w[j].name) matches Some(k) && new[k] == w[j]
        } by {
            assert(w[j] == p[j]);
        }
        lemma_kept_identity(w, new, n);
        assert(p[p.len() - 1] == p.last());
    }
}

/// A name of `p` that `new` has is among the shared names.
proof fn lemma_shared_contains(p: Seq<AliasView>, new: Seq<AliasView>, j: int)
    requires
        0 <= j < p.len(),
        has_name(new, p[j].name),
    ensures
        shared_names(p, new).contains(p[j].name),
    decreases p.len(),
{
    let w = p.drop_last();
    if j < w.len() {
        assert(w[j] == p[j]);
        lemma_shared_contains(w, new, j);
        let r = shared_names(w, new);
        let i = choose|i: int| 0 <= i < r.len() && r[i] == p[j].name;
        if has_name(new, p.last().name) {
            assert(r.push(p.last().name)[i] == p[j].name);
        }
    } else {
        let r = shared_names(w, new);
        assert(r.push(p.last().name)[r.len() as int] == p[j].name);
    }
}

/// Nothing is appended when every name of the new list was met.
proof fn lemma_appended_none(new: Seq<AliasView>, k: int, used: Seq<Seq<char>>)
    requires
        0 <= k <= new.len(),
        forall|j: int| 0 <= j < k ==> used.contains(#[trigger] new[j].name),
    ensures
        appended_aliases(new, k, used) == Seq::<AliasView>::empty(),
    decreases k,
{
    if k > 0 {
        lemma_appended_none(new, k - 1, used);
        assert(used.contains(new[k - 1].name));
    }
}

proof fn lemma_delete_find_one(p: Seq<AliasView>, n: Seq<char>, j: int)
    requires
        unique_names(p),
        0 <= j < p.len(),
    ensures
        if p[j].name == n {
            index_named(remove_named(p, n), p[j].name) is None
        } else {
            index_named(remove_named(p, n), p[j].name) matches Some(k) && remove_named(p, n)[k]
                == p[j]
        },
{
    let r = remove_named(p, n);
    if p[j].name == n {
        lemma_remove_named_from(p, n);
        lemma_index_named_is(r, n, None);
    } else {
        lemma_remove_named_keeps(p, n);
        lemma_remove_named_unique(p, n);
        assert(p[j].name != n);
        let k = choose|k: int| 0 <= k < r.len() && r[k] == p[j];
        assert forall|i: int| 0 <= i < k implies r[i].name != p[j].name by {
            assert(r[i].name != r[k].name);
        }
        lemma_index_named_is(r, p[j].name, Some(k));
    }
}

/// After removing `n`, each alias of `p` not named `n` is found as itself,
/// and `n` is not found.
proof fn lemma_delete_finds(p: Seq<AliasView>, n: Seq<char>)
    requires
        unique_names(p),
    ensures
        forall|j: int|
            0 <= j < p.len() ==> if (#[trigger] p[j]).name == n {
                index_named(remove_named(p, n), p[j].name) is None
            } else {
                index_named(remove_named(p, n), p[j].name) matches Some(k) && remove_named(
                    p,
                    n,
                )[k] == p[j]
            },
{
    assert forall|j: int| 0 <= j < p.len() implies if (#[trigger] p[j]).name == n {
        index_named(remove_named(p, n), p[j].name) is None
    } else {
        index_named(remove_named(p, n), p[j].name) matches Some(k) && remove_named(p, n)[k] == p[j]
    } by {
        lemma_delete_find_one(p, n, j);
    }
}

/// Every name left after removing `n` is a shared name.
proof fn lemma_delete_all_shared(p: Seq<AliasView>, n: Seq<char>)
    ensures
        forall|j: int|
            0 <= j < remove_named(p, n).len() ==> shared_names(p, remove_named(p, n)).contains(
                #[trigger] remove_named(p, n)[j].name,
            ),
{
    let r = remove_named(p, n);
    lemma_remove_named_from(p, n);
    assert forall|j: int| 0 <= j < r.len() implies shared_names(p, r).contains(
        #[trigger] r[j].name,
    ) by {
        let i = choose|i: int| 0 <= i < p.len() && p[i] == r[j];
        lemma_index_named(r, r[j].name);
        lemma_shared_contains(p, r, i);
    }
}

/// Deleting an alias from a configuration text and reading the text back
/// gives the aliases it had without the deleted one, in their order. This
/// holds when the aliases of the text have distinct names.
pub proof fn lemma_deleted_alias_reads_back(content: Seq<char>, name: Seq<char>)
    requires
        unique_names(parsed_aliases(content)),
    ensures
        parsed_aliases(rebuilt_content(content, remove_named(parsed_aliases(content), name)))
            == remove_named(parsed_aliases(content), name),
{
    let p = parsed_aliases(content);
    let r = remove_named(p, name);
    lemma_parsed_writable(content);
    lemma_remove_named_from(p, name);
    assert forall|k: int| 0 <= k < r.len() implies writable(#[trigger] r[k]) by {
        let j = choose|j: int| 0 <= j < p.len() && p[j] == r[k];
        assert(writable(p[j]));
    }
    lemma_delete_finds(p, name);
    lemma_kept_identity(p, r, name);
    lemma_delete_all_shared(p, name);
    lemma_appended_none(r, r.len() as int, shared_names(p, r));
    lemma_rebuilt_reads_back(content, r);
    assert(r + Seq::<AliasView>::empty() =~= r);
}

proof fn lemma_replace_at(p: Seq<AliasView>, old: Seq<char>, a: AliasView)
    ensures
        replace_named(p, old, a).len() == p.len(),
        forall|j: int|
            0 <= j < p.len() ==> #[trigger] replace_named(p, old, a)[j] == if p[j].name == old {
                a
            } else {
                p[j]
            },
{
}

/// Kept aliases when each alias is found at its own position.
proof fn lemma_kept_same_positions(p: Seq<AliasView>, q: Seq<AliasView>, m: int)
    requires
        p.len() <= q.len(),
        0 <= m <= p.len(),
        forall|j: int| 0 <= j < p.len() ==> index_named(q, (#[trigger] p[j]).name) == Some(j),
    ensures
        kept_aliases(p.take(m), q) == q.take(m),
    decreases m,
{
    if m == 0 {
        assert(p.take(0) =~= Seq::<AliasView>::empty());
        assert(q.take(0) =~= Seq::<AliasView>::empty());
    } else {
        lemma_kept_same_positions(p, q, m - 1);
        assert(p.take(m).drop_last() =~= p.take(m - 1));
        assert(p.take(m).last() == p[m - 1]);
        assert(q.take(m - 1).push(q[m - 1]) =~= q.take(m));
    }
}

/// A name at a position counts.
proof fn lemma_count_pos(v: Seq<AliasView>, n: Seq<char>, i: int)
    requires
        0 <= i < v.len(),
        v[i].name == n,
    ensures
        count_named(v, n) >= 1,
    decreases v.len(),
{
    if i < v.len() - 1 {
        assert(v.drop_last()[i] == v[i]);
        lemma_count_pos(v.drop_last(), n, i);
    }
}

/// A name at two positions counts twice.
proof fn lemma_count_two(v: Seq<AliasView>, n: Seq<char>, i: int, o: int)
    requires
        0 <= i < o < v.len(),
        v[i].name == n,
        v[o].name == n,
    ensures
        count_named(v, n) >= 2,
    decreases v.len(),
{
    let w = v.drop_last();
    assert(w[i] == v[i]);
    if o < v.len() - 1 {
        assert(w[o] == v[o]);
        lemma_count_two(w, n, i, o);
    } else {
        lemma_count_pos(w, n, i);
    }
}

/// The shared names are names of `p`.
proof fn lemma_shared_from(p: Seq<AliasView>, new: Seq<AliasView>)
    ensures
        forall|i: int|
            0 <= i < shared_names(p, new).len() ==> exists|j: int|
                0 <= j < p.len() && p[j].name == #[trigger] shared_names(p, new)[i],
    decreases p.len(),
{
    if p.len() > 0 {
        let w = p.drop_last();
        lemma_shared_from(w, new);
        let r = shared_names(w, new);
        assert forall|i: int| 0 <= i < shared_names(p, new).len() implies exists|j: int|
            0 <= j < p.len() && p[j].name == #[trigger] shared_names(p, new)[i] by {
            if i < r.len() {
                assert(shared_names(p, new)[i] == r[i]);
                let j = choose|j: int| 0 <= j < w.len() && w[j].name == r[i];
                assert(p[j] == w[j]);
            } else {
                assert(p[p.len() - 1].name == shared_names(p, new)[i]);
            }
        }
    }
}

/// Updating an alias in place, keeping its name: the text reads back as the
/// aliases with that one replaced.
proof fn lemma_update_same_name(content: Seq<char>, old: Seq<char>, a: AliasView)
    requires
        unique_names(parsed_aliases(content)),
        writable(a),
        a.name == old,
    ensures
        parsed_aliases(rebuilt_content(content, replace_named(parsed_aliases(content), old, a)))
            == replace_named(parsed_aliases(content), old, a),
{
    let p = parsed_aliases(content);
    let q = replace_named(p, old, a);
    lemma_replace_at(p, old, a);
    lemma_parsed_writable(content);
    assert forall|k: int| 0 <= k < q.len() implies writable(#[trigger] q[k]) by {
        assert(q[k] == if p[k].name == old {
            a
        } else {
            p[k]
        });
    }
    assert forall|j: int| 0 <= j < p.len() implies #[trigger] q[j].name == p[j].name by {}
    assert forall|j: int| 0 <= j < p.len() implies index_named(q, (#[trigger] p[j]).name) == Some(
        j,
    ) by {
        assert forall|i: int| 0 <= i < j implies q[i].name != p[j].name by {
            assert(q[i].name == p[i].name);
            assert(p[i].name != p[j].name);
        }
        assert(q[j].name == p[j].name);
        lemma_index_named_is(q, p[j].name, Some(j));
    }
    lemma_kept_same_positions(p, q, p.len() as int);
    assert(p.take(p.len() as int) =~= p);
    assert(q.take(q.len() as int) =~= q);
    let used = shared_names(p, q);
    assert forall|j: int| 0 <= j < q.len() implies used.contains(#[trigger] q[j].name) by {
        assert(q[j].name == p[j].name);
        lemma_index_named(q, p[j].name);
        lemma_shared_contains(p, q, j);
    }
    lemma_appended_none(q, q.len() as int, used);
    lemma_rebuilt_reads_back(content, q);
    assert(q + Seq::<AliasView>::empty() =~= q);
}

/// The aliases appended after a rename: the renamed alias alone.
proof fn lemma_appended_renamed(q: Seq<AliasView>, k: int, used: Seq<Seq<char>>, o: int, a: AliasView)
    requires
        0 <= o < q.len(),
        0 <= k <= q.len(),
        q[o] == a,
        !used.contains(a.name),
        forall|j: int| 0 <= j < q.len() && j != o ==> used.contains(#[trigger] q[j].name),
        index_named(q, a.name) == Some(o),
    ensures
        appended_aliases(q, k, used) == if k > o {
            seq![a]
        } else {
            Seq::<AliasView>::empty()
        },
    decreases k,
{
    if k > 0 {
        lemma_appended_renamed(q, k - 1, used, o, a);
        if k - 1 == o {
            assert(Seq::<AliasView>::empty().push(a) =~= seq![a]);
        } else {
            assert(used.contains(q[k - 1].name));
        }
    }
}

/// Updating an alias under a new name that no other alias has: the text
/// reads back as the aliases without the old one, then the renamed alias at
/// the end.
proof fn lemma_update_renamed(content: Seq<char>, old: Seq<char>, a: AliasView)
    requires
        !ends_in_tags_comment(content),
        unique_names(parsed_aliases(content)),
        writable(a),
        a.name != old,
        has_name(parsed_aliases(content), old),
        count_named(replace_named(parsed_aliases(content), old, a), a.name) <= 1,
    ensures
        parsed_aliases(rebuilt_content(content, replace_named(parsed_aliases(content), old, a)))
            == remove_named(parsed_aliases(content), old).push(a),
{
    let p = parsed_aliases(content);
    let q = replace_named(p, old, a);
    lemma_replace_at(p, old, a);
    lemma_parsed_writable(content);
    lemma_index_named(p, old);
    let o = index_named(p, old)->0;
    assert(q[o] == a);
    // no alias of the text already has the new name
    assert forall|i: int| 0 <= i < p.len() implies (#[trigger] p[i]).name != a.name by {
        if p[i].name == a.name {
            assert(q[i] == p[i]);
            if i < o {
                lemma_count_two(q, a.name, i, o);
            } else {
                assert(i != o);
                lemma_count_two(q, a.name, o, i);
            }
        }
    }
    assert forall|k: int| 0 <= k < q.len() implies writable(#[trigger] q[k]) by {
        assert(q[k] == if p[k].name == old {
            a
        } else {
            p[k]
        });
    }
    lemma_rebuilt_reads_back(content, q);
    // each other alias is found as itself; the old name is gone
    assert forall|j: int| 0 <= j < p.len() implies if (#[trigger] p[j]).name == old {
        index_named(q, p[j].name) is None
    } else {
        index_named(q, p[j].name) matches Some(k) && q[k] == p[j]
    } by {
        if p[j].name == old {
            assert forall|i: int| 0 <= i < q.len() implies q[i].name != old by {
                if p[i].name != old {
                    assert(q[i] == p[i]);
                }
            }
            lemma_index_named_is(q, old, None);
        } else {
            assert(q[j] == p[j]);
            assert forall|i: int| 0 <= i < j implies q[i].name != p[j].name by {
                if p[i].name == old {
                    assert(q[i] == a);
                } else {
                    assert(q[i] == p[i]);
                    assert(p[i].name != p[j].name);
                }
            }
            lemma_index_named_is(q, p[j].name, Some(j));
        }
    }
    lemma_kept_identity(p, q, old);
    let used = shared_names(p, q);
    lemma_shared_from(p, q);
    assert(!used.contains(a.name)) by {
        if used.contains(a.name) {
            let i = choose|i: int| 0 <= i < used.len() && used[i] == a.name;
            let j = choose|j: int| 0 <= j < p.len() && p[j].name == used[i];
            assert(p[j].name != a.name);
        }
    }
    assert forall|j: int| 0 <= j < q.len() && j != o implies used.contains(#[trigger] q[j].name) by {
        assert(p[j].name != old) by {
            if p[j].name == old {
                assert(p[o].name != p[j].name);
            }
        }
        assert(q[j] == p[j]);
        lemma_index_named(q, p[j].name);
        lemma_shared_contains(p, q, j);
    }
    assert forall|i: int| 0 <= i < o implies q[i].name != a.name by {
        assert(p[i].name != old);
        assert(q[i] == p[i]);
    }
    lemma_index_named_is(q, a.name, Some(o));
    lemma_appended_renamed(q, q.len() as int, used, o, a);
    assert(remove_named(p, old) + seq![a] =~= remove_named(p, old).push(a));
}

/// Updating an alias in a configuration text and reading the text back: with
/// the name kept, the aliases with that one replaced in place; under a new
/// name, the aliases without the old one and the renamed alias at the end.
/// This holds when the update is accepted (the old name exists and the new
/// name is not another alias's), the aliases of the text have distinct names,
/// the new alias can be written and read back, and, for a rename, the text
/// does not end with a tags comment (whose tags the renamed alias, written at
/// the end, would take).
pub proof fn lemma_updated_alias_reads_back(content: Seq<char>, old: Seq<char>, a: AliasView)
    requires
        a.name == old || !ends_in_tags_comment(content),
        unique_names(parsed_aliases(content)),
        writable(a),
        has_name(parsed_aliases(content), old),
        old == a.name || count_named(replace_named(parsed_aliases(content), old, a), a.name) <= 1,
    ensures
        parsed_aliases(rebuilt_content(content, replace_named(parsed_aliases(content), old, a)))
            == if a.name == old {
            replace_named(parsed_aliases(content), old, a)
        } else {
            remove_named(parsed_aliases(content), old).push(a)
        },
{
    if a.name == old {
        lemma_update_same_name(content, old, a);
    } else {
        lemma_update_renamed(content, old, a);
    }
}

/// The aliases appended for a list that extends the text's aliases: those
/// past them, in order.
proof fn lemma_appended_extension(p: Seq<AliasView>, new: Seq<AliasView>, k: int)
    requires
        p.len() <= new.len(),
        0 <= k <= new.len(),
        unique_names(new),
        forall|j: int| 0 <= j < p.len() ==> (#[trigger] new[j]).name == p[j].name,
        forall|j: int| 0 <= j < p.len() ==> has_name(new, (#[trigger] p[j]).name),
    ensures
        appended_aliases(new, k, shared_names(p, new)) == if k <= p.len() {
            Seq::<AliasView>::empty()
        } else {
            new.subrange(p.len() as int, k)
        },
    decreases k,
{
    let used = shared_names(p, new);
    if k > 0 {
        lemma_appended_extension(p, new, k - 1);
        let nm = new[k - 1].name;
        if k - 1 < p.len() {
            lemma_shared_contains(p, new, k - 1);
            assert(p[k - 1].name == nm);
        } else {
            lemma_shared_from(p, new);
            assert(!used.contains(nm)) by {
                if used.contains(nm) {
                    let i = choose|i: int| 0 <= i < used.len() && used[i] == nm;
                    let j = choose|j: int| 0 <= j < p.len() && p[j].name == used[i];
                    assert(new[j].name == p[j].name);
                    assert(new[j].name != new[k - 1].name);
                }
            }
            assert forall|i: int| 0 <= i < k - 1 implies new[i].name != nm by {
                assert(new[i].name != new[k - 1].name);
            }
            lemma_index_named_is(new, nm, Some(k - 1));
            if k - 1 == p.len() {
                assert(Seq::<AliasView>::empty().push(new[k - 1]) =~= new.subrange(
                    p.len() as int,
                    k,
                ));
            } else {
                assert(new.subrange(p.len() as int, k - 1).push(new[k - 1]) =~= new.subrange(
                    p.len() as int,
                    k,
                ));
            }
        }
    }
}

/// A rebuilt text reads back as the new list when the list keeps the
/// aliases of the text, by name, at their positions and adds any others
/// after them, all names distinct and all aliases writable, and, where others
/// are added, the text does not end with a tags comment.
pub proof fn lemma_extended_list_reads_back(content: Seq<char>, new: Seq<AliasView>)
    requires
        !ends_in_tags_comment(content) || new.len() == parsed_aliases(content).len(),
        unique_names(new),
        forall|k: int| 0 <= k < new.len() ==> writable(#[trigger] new[k]),
        parsed_aliases(content).len() <= new.len(),
        forall|j: int|
            0 <= j < parsed_aliases(content).len() ==> (#[trigger] new[j]).name == parsed_aliases(
                content,
            )[j].name,
    ensures
        parsed_aliases(rebuilt_content(content, new)) == new,
{
    let p = parsed_aliases(content);
    assert forall|j: int| 0 <= j < p.len() implies index_named(new, (#[trigger] p[j]).name) == Some(
        j,
    ) by {
        assert forall|i: int| 0 <= i < j implies new[i].name != p[j].name by {
            assert(new[i].name != new[j].name);
        }
        assert(new[j].name == p[j].name);
        lemma_index_named_is(new, p[j].name, Some(j));
    }
    assert forall|j: int| 0 <= j < p.len() implies has_name(new, (#[trigger] p[j]).name) by {
        assert(index_named(new, p[j].name) == Some(j));
    }
    lemma_kept_same_positions(p, new, p.len() as int);
    assert(p.take(p.len() as int) =~= p);
    lemma_appended_extension(p, new, new.len() as int);
    lemma_rebuilt_reads_back(content, new);
    if new.len() == p.len() {
        assert(new.take(p.len() as int) + Seq::<AliasView>::empty() =~= new);
    } else {
        assert(new.take(p.len() as int) + new.subrange(p.len() as int, new.len() as int) =~= new);
    }
}

/// A batch update keeps every alias at its position under its name, with a
/// new command and tags from the batch.
proof fn lemma_update_batch_shape(p: Seq<AliasView>, batch: Seq<AliasView>)
    requires
        forall|k: int| 0 <= k < p.len() ==> writable(#[trigger] p[k]),
        forall|k: int| 0 <= k < batch.len() ==> writable(#[trigger] batch[k]),
    ensures
        ({
            let c = update_batch(p, batch).current;
            &&& c.len() == p.len()
            &&& forall|j: int| 0 <= j < p.len() ==> (#[trigger] c[j]).name == p[j].name
            &&& forall|k: int| 0 <= k < c.len() ==> writable(#[trigger] c[k])
        }),
    decreases batch.len(),
{
    if batch.len() > 0 {
        let b0 = batch.drop_last();
        assert forall|k: int| 0 <= k < b0.len() implies writable(#[trigger] b0[k]) by {
            assert(b0[k] == batch[k]);
        }
        lemma_update_batch_shape(p, b0);
        let st = update_batch(p, b0);
        let a = batch.last();
        assert(writable(batch[batch.len() - 1]));
        lemma_index_named(st.current, a.name);
        let c = update_batch(p, batch).current;
        match index_named(st.current, a.name) {
            Some(k) => {
                let e = st.current[k];
                assert(writable(updated_entry(e, a))) by {
                    assert(writable(st.current[k]));
                }
                assert forall|j: int| 0 <= j < c.len() implies writable(#[trigger] c[j]) by {
                    if j != k {
                        assert(c[j] == st.current[j]);
                    }
                }
                assert forall|j: int| 0 <= j < p.len() implies (#[trigger] c[j]).name == p[j].name by {
                    assert(c[j].name == st.current[j].name);
                }
            },
            None => {},
        }
    }
}

/// The text that a batch add writes reads back as the batch's list so far,
/// and does not end with a tags comment.
proof fn lemma_add_batch_text(content: Seq<char>, batch: Seq<AliasView>)
    requires
        !ends_in_tags_comment(content),
        forall|k: int| 0 <= k < batch.len() ==> writable(#[trigger] batch[k]),
    ensures
        ({
            let p = parsed_aliases(content);
            let st = add_batch(p, batch);
            &&& p.len() <= st.current.len()
            &&& parsed_aliases(added_all(content, batch_added(p, st))) == st.current
            &&& !ends_in_tags_comment(added_all(content, batch_added(p, st)))
        }),
    decreases batch.len(),
{
    let p = parsed_aliases(content);
    if batch.len() == 0 {
        assert(batch_added(p, add_batch(p, batch)) =~= Seq::<AliasView>::empty());
    } else {
        let b0 = batch.drop_last();
        assert forall|k: int| 0 <= k < b0.len() implies writable(#[trigger] b0[k]) by {
            assert(b0[k] == batch[k]);
        }
        lemma_add_batch_text(content, b0);
        let st = add_batch(p, b0);
        let st1 = add_batch(p, batch);
        let a = batch.last();
        assert(writable(batch[batch.len() - 1]));
        let x = batch_added(p, st);
        if st1.current.len() > st.current.len() {
            assert(st1.current == st.current.push(a));
            let x1 = batch_added(p, st1);
            assert(x1.drop_last() =~= x);
            assert(x1.last() == a);
            lemma_added_alias_reads_back(added_all(content, x), a);
        } else {
            assert(st1.current == st.current);
        }
    }
}

/// After a batch add, the text written back (the old text with the added
/// aliases appended) reads as the batch's final list: the aliases of the
/// text, then the added ones. This holds when the entries of the batch can be
/// written and read back and the text does not end with a tags comment
/// (whose tags the first added alias would take).
pub proof fn lemma_batch_add_reads_back(content: Seq<char>, batch: Seq<AliasView>)
    requires
        !ends_in_tags_comment(content),
        forall|k: int| 0 <= k < batch.len() ==> writable(#[trigger] batch[k]),
    ensures
        ({
            let p = parsed_aliases(content);
            let st = add_batch(p, batch);
            parsed_aliases(added_all(content, batch_added(p, st))) == st.current
        }),
{
    lemma_add_batch_text(content, batch);
}

/// After a batch update, the text written back reads as the batch's final
/// list: the aliases of the text, in place, with the new commands and tags.
/// This holds when the aliases of the text have distinct names and the
/// entries of the batch can be written and read back.
pub proof fn lemma_batch_update_reads_back(content: Seq<char>, batch: Seq<AliasView>)
    requires
        unique_names(parsed_aliases(content)),
        forall|k: int| 0 <= k < batch.len() ==> writable(#[trigger] batch[k]),
    ensures
        parsed_aliases(
            rebuilt_content(content, update_batch(parsed_aliases(content), batch).current),
        ) == update_batch(parsed_aliases(content), batch).current,
{
    let p = parsed_aliases(content);
    lemma_parsed_writable(content);
    lemma_update_batch_shape(p, batch);
    let c = update_batch(p, batch).current;
    assert(unique_names(c)) by {
        assert forall|i: int, j: int| 0 <= i < j < c.len() implies #[trigger] c[i].name
            != #[trigger] c[j].name by {
            assert(c[i].name == p[i].name);
            assert(c[j].name == p[j].name);
        }
    }
    lemma_extended_list_reads_back(content, c);
}

/// The aliases of `v` whose names are not in `d`, in order.
pub open spec fn without_names(v: Seq<AliasView>, d: Seq<Seq<char>>) -> Seq<AliasView>
    decreases v.len(),
{
    if v.len() == 0 {
        Seq::empty()
    } else {
        let r = without_names(v.drop_last(), d);
        if d.contains(v.last().name) {
            r
        } else {
            r.push(v.last())
        }
    }
}

proof fn lemma_without_none(v: Seq<AliasView>)
    ensures
        without_names(v, Seq::empty()) == v,
    decreases v.len(),
{
    if v.len() > 0 {
        lemma_without_none(v.drop_last());
        assert(v.drop_last().push(v.last()) =~= v);
    }
}

proof fn lemma_without_push(v: Seq<AliasView>, d: Seq<Seq<char>>, n: Seq<char>)
    ensures
        remove_named(without_names(v, d), n) == without_names(v, d.push(n)),
    decreases v.len(),
{
    if v.len() > 0 {
        let w = v.drop_last();
        let x = v.last();
        lemma_without_push(w, d, n);
        let r = without_names(w, d);
        assert(d.push(n).contains(x.name) <==> (d.contains(x.name) || x.name == n)) by {
            if d.push(n).contains(x.name) && !d.contains(x.name) {
                let i = choose|i: int| 0 <= i < d.push(n).len() && d.push(n)[i] == x.name;
                if i < d.len() {
                    assert(d[i] == x.name);
                }
            }
            if d.contains(x.name) {
                let i = choose|i: int| 0 <= i < d.len() && d[i] == x.name;
                assert(d.push(n)[i] == x.name);
            }
            if x.name == n {
                assert(d.push(n)[d.len() as int] == n);
            }
        }
        if !d.contains(x.name) {
            assert(r.push(x).drop_last() =~= r);
        }
    }
}

proof fn lemma_without_absent(v: Seq<AliasView>, d: Seq<Seq<char>>, n: Seq<char>)
    requires
        forall|j: int| 0 <= j < v.len() ==> (#[trigger] v[j]).name != n,
    ensures
        without_names(v, d.push(n)) == without_names(v, d),
    decreases v.len(),
{
    if v.len() > 0 {
        let w = v.drop_last();
        let x = v.last();
        assert forall|j: int| 0 <= j < w.len() implies (#[trigger] w[j]).name != n by {
            assert(w[j] == v[j]);
        }
        lemma_without_absent(w, d, n);
        assert(v[v.len() - 1] == x);
        assert(d.push(n).contains(x.name) <==> d.contains(x.name)) by {
            if d.push(n).contains(x.name) {
                let i = choose|i: int| 0 <= i < d.push(n).len() && d.push(n)[i] == x.name;
                if i < d.len() {
                    assert(d[i] == x.name);
                }
            }
            if d.contains(x.name) {
                let i = choose|i: int| 0 <= i < d.len() && d[i] == x.name;
                assert(d.push(n)[i] == x.name);
            }
        }
    }
}

/// The list that a batch delete ends with: the aliases without the names
/// `without_names` keeps exactly the aliases whose names are not listed.
proof fn lemma_without_contains(v: Seq<AliasView>, d: Seq<Seq<char>>)
    ensures
        forall|x: AliasView| #[trigger]
            without_names(v, d).contains(x) <==> (v.contains(x) && !d.contains(x.name)),
    decreases v.len(),
{
    if v.len() > 0 {
        let init = v.drop_last();
        lemma_without_contains(init, d);
        let m0 = without_names(init, d);
        let m = without_names(v, d);
        assert forall|x: AliasView| #[trigger]
            m.contains(x) <==> (v.contains(x) && !d.contains(x.name)) by {
            if m.contains(x) {
                let k = choose|k: int| 0 <= k < m.len() && m[k] == x;
                if !d.contains(v.last().name) && k == m.len() - 1 {
                    assert(v[v.len() - 1] == x);
                } else {
                    assert(m0[k] == x);
                    assert(m0.contains(x));
                    let j = choose|j: int| 0 <= j < init.len() && init[j] == x;
                    assert(v[j] == x);
                }
            }
            if v.contains(x) && !d.contains(x.name) {
                let j = choose|j: int| 0 <= j < v.len() && v[j] == x;
                if j == v.len() - 1 {
                    assert(m[m.len() - 1] == x);
                } else {
                    assert(init[j] == x);
                    assert(m0.contains(x));
                    let k = choose|k: int| 0 <= k < m0.len() && m0[k] == x;
                    assert(m[k] == x);
                }
            }
        }
    }
}

/// The batch delete law: the final list holds exactly the aliases of the
/// starting list whose names are not among the names given, and it is marked
/// changed exactly when some given name is the name of an alias of the
/// starting list.
pub proof fn lemma_batch_delete_law(p: Seq<AliasView>, names: Seq<Seq<char>>)
    ensures
        forall|x: AliasView| #[trigger]
            delete_batch(p, names).current.contains(x) <==> (p.contains(x) && !names.contains(
                x.name,
            )),
        delete_batch(p, names).changed <==> exists|i: int|
            0 <= i < names.len() && exists|j: int|
                0 <= j < p.len() && #[trigger] p[j].name == #[trigger] names[i],
    decreases names.len(),
{
    lemma_delete_batch_list(p, names);
    lemma_without_contains(p, names);
    if names.len() > 0 {
        let d = names.drop_last();
        let n = names.last();
        lemma_batch_delete_law(p, d);
        lemma_index_named(p, n);
        let ch0 = delete_batch(p, d).changed;
        if delete_batch(p, names).changed {
            if !ch0 {
                let k = index_named(p, n)->0;
                assert(p[k].name == names[names.len() - 1]);
            } else {
                let i = choose|i: int|
                    0 <= i < d.len() && exists|j: int|
                        0 <= j < p.len() && #[trigger] p[j].name == #[trigger] d[i];
                assert(names[i] == d[i]);
            }
        } else {
            assert forall|i: int, j: int|
                0 <= i < names.len() && 0 <= j < p.len() implies #[trigger] p[j].name
                != #[trigger] names[i] by {
                if i < d.len() {
                    assert(names[i] == d[i]);
                }
            }
        }
    }
}

/// of the batch.
proof fn lemma_delete_batch_list(p: Seq<AliasView>, names: Seq<Seq<char>>)
    ensures
        delete_batch(p, names).current == without_names(p, names),
    decreases names.len(),
{
    if names.len() == 0 {
        lemma_without_none(p);
        assert(names =~= Seq::<Seq<char>>::empty());
    } else {
        let d = names.drop_last();
        let n = names.last();
        lemma_delete_batch_list(p, d);
        assert(d.push(n) =~= names);
        assert(names.drop_last() =~= d);
        assert(delete_batch(p, names).current == if has_name(p, n) {
            remove_named(delete_batch(p, d).current, n)
        } else {
            delete_batch(p, d).current
        });
        lemma_index_named(p, n);
        if has_name(p, n) {
            lemma_without_push(p, d, n);
        } else {
            lemma_without_absent(p, d, n);
        }
    }
}

/// Each alias of `without_names(v, d)` is an alias of `v` with a name
/// outside `d`.
proof fn lemma_without_from(v: Seq<AliasView>, d: Seq<Seq<char>>)
    ensures
        forall|k: int|
            0 <= k < without_names(v, d).len() ==> !d.contains(
                (#[trigger] without_names(v, d)[k]).name,
            ) && exists|j: int| 0 <= j < v.len() && v[j] == without_names(v, d)[k],
    decreases v.len(),
{
    if v.len() > 0 {
        let w = v.drop_last();
        let x = v.last();
        lemma_without_from(w, d);
        let r0 = without_names(w, d);
        let r = without_names(v, d);
        assert forall|k: int| 0 <= k < r.len() implies !d.contains((#[trigger] r[k]).name) && exists|
            j: int,
        | 0 <= j < v.len() && v[j] == r[k] by {
            if k < r0.len() {
                assert(r[k] == r0[k]);
                let j = choose|j: int| 0 <= j < w.len() && w[j] == r0[k];
                assert(v[j] == w[j]);
            } else {
                assert(r[k] == x);
                assert(v[v.len() - 1] == x);
            }
        }
    }
}

/// Every alias of `v` with a name outside `d` is in `without_names(v, d)`.
proof fn lemma_without_keeps(v: Seq<AliasView>, d: Seq<Seq<char>>)
    ensures
        forall|j: int|
            0 <= j < v.len() && !d.contains((#[trigger] v[j]).name) ==> exists|k: int|
                0 <= k < without_names(v, d).len() && without_names(v, d)[k] == v[j],
    decreases v.len(),
{
    if v.len() > 0 {
        let w = v.drop_last();
        let x = v.last();
        lemma_without_keeps(w, d);
        let r0 = without_names(w, d);
        let r = without_names(v, d);
        assert forall|j: int| 0 <= j < v.len() && !d.contains((#[trigger] v[j]).name) implies exists|
            k: int,
        | 0 <= k < r.len() && r[k] == v[j] by {
            if j < w.len() {
                assert(w[j] == v[j]);
                let k = choose|k: int| 0 <= k < r0.len() && r0[k] == w[j];
                assert(r[k] == r0[k]);
            } else {
                assert(r[r.len() - 1] == x);
            }
        }
    }
}

proof fn lemma_without_unique(v: Seq<AliasView>, d: Seq<Seq<char>>)
    requires
        unique_names(v),
    ensures
        unique_names(without_names(v, d)),
    decreases v.len(),
{
    if v.len() > 0 {
        let w = v.drop_last();
        let x = v.last();
        assert(unique_names(w)) by {
            assert forall|i: int, j: int| 0 <= i < j < w.len() implies #[trigger] w[i].name
                != #[trigger] w[j].name by {
                assert(v[i].name != v[j].name);
            }
        }
        lemma_without_unique(w, d);
        lemma_without_from(w, d);
        let r0 = without_names(w, d);
        let r = without_names(v, d);
        if !d.contains(x.name) {
            assert forall|i: int, j: int| 0 <= i < j < r.len() implies #[trigger] r[i].name
                != #[trigger] r[j].name by {
                assert(r[i] == r0[i]);
                if j == r.len() - 1 {
                    let a = choose|a: int| 0 <= a < w.len() && w[a] == r0[i];
                    assert(v[a] == w[a]);
                    assert(v[a].name != v[v.len() - 1].name);
                } else {
                    assert(r[j] == r0[j]);
                }
            }
        }
    }
}

/// The kept aliases are the aliases outside `d` when the new list gives back
/// each of them as it is and lacks the names of `d`.
proof fn lemma_kept_without(p: Seq<AliasView>, new: Seq<AliasView>, d: Seq<Seq<char>>)
    requires
        forall|j: int|
            0 <= j < p.len() ==> if d.contains((#[trigger] p[j]).name) {
                index_named(new, p[j].name) is None
            } else {
                index_named(new, p[j].name) matches Some(k) && new[k] == p[j]
            },
    ensures
        kept_aliases(p, new) == without_names(p, d),
    decreases p.len(),
{
    if p.len() > 0 {
        let w = p.drop_last();
        assert forall|j: int| 0 <= j < w.len() implies if d.contains((#[trigger] w[j]).name) {
            index_named(new, w[j].name) is None
        } else {
            index_named(new, w[j].name) matches Some(k) && new[k] == w[j]
        } by {
            assert(w[j] == p[j]);
        }
        lemma_kept_without(w, new, d);
        assert(p[p.len() - 1] == p.last());
    }
}

proof fn lemma_without_find_one(p: Seq<AliasView>, d: Seq<Seq<char>>, j: int)
    requires
        unique_names(p),
        0 <= j < p.len(),
    ensures
        if d.contains(p[j].name) {
            index_named(without_names(p, d), p[j].name) is None
        } else {
            index_named(without_names(p, d), p[j].name) matches Some(k) && without_names(p, d)[k]
                == p[j]
        },
{
    let r = without_names(p, d);
    if d.contains(p[j].name) {
        lemma_without_from(p, d);
        assert forall|k: int| 0 <= k < r.len() implies r[k].name != p[j].name by {
            assert(!d.contains(r[k].name));
        }
        lemma_index_named_is(r, p[j].name, None);
    } else {
        lemma_without_unique(p, d);
        lemma_without_keeps(p, d);
        let k = choose|k: int| 0 <= k < r.len() && r[k] == p[j];
        assert forall|i: int| 0 <= i < k implies r[i].name != p[j].name by {
            assert(r[i].name != r[k].name);
        }
        lemma_index_named_is(r, p[j].name, Some(k));
    }
}

proof fn lemma_without_finds(p: Seq<AliasView>, d: Seq<Seq<char>>)
    requires
        unique_names(p),
    ensures
        forall|j: int|
            0 <= j < p.len() ==> if d.contains((#[trigger] p[j]).name) {
                index_named(without_names(p, d), p[j].name) is None
            } else {
                index_named(without_names(p, d), p[j].name) matches Some(k) && without_names(
                    p,
                    d,
                )[k] == p[j]
            },
{
    assert forall|j: int| 0 <= j < p.len() implies if d.contains((#[trigger] p[j]).name) {
        index_named(without_names(p, d), p[j].name) is None
    } else {
        index_named(without_names(p, d), p[j].name) matches Some(k) && without_names(p, d)[k]
            == p[j]
    } by {
        lemma_without_find_one(p, d, j);
    }
}

proof fn lemma_without_shared(p: Seq<AliasView>, d: Seq<Seq<char>>)
    ensures
        forall|j: int|
            0 <= j < without_names(p, d).len() ==> shared_names(p, without_names(p, d)).contains(
                #[trigger] without_names(p, d)[j].name,
            ),
{
    let r = without_names(p, d);
    lemma_without_from(p, d);
    assert forall|j: int| 0 <= j < r.len() implies shared_names(p, r).contains(
        #[trigger] r[j].name,
    ) by {
        let i = choose|i: int| 0 <= i < p.len() && p[i] == r[j];
        lemma_index_named(r, r[j].name);
        lemma_shared_contains(p, r, i);
    }
}

proof fn lemma_without_writable(content: Seq<char>, d: Seq<Seq<char>>)
    ensures
        forall|k: int|
            0 <= k < without_names(parsed_aliases(content), d).len() ==> writable(
                #[trigger] without_names(parsed_aliases(content), d)[k],
            ),
{
    let p = parsed_aliases(content);
    let r = without_names(p, d);
    lemma_parsed_writable(content);
    lemma_without_from(p, d);
    assert forall|k: int| 0 <= k < r.len() implies writable(#[trigger] r[k]) by {
        let j = choose|j: int| 0 <= j < p.len() && p[j] == r[k];
        assert(writable(p[j]));
    }
}

/// After a batch delete, the text written back reads as the batch's final
/// list: the aliases of the text without the deleted names, in their order.
/// This holds when the aliases of the text have distinct names.
pub proof fn lemma_batch_delete_reads_back(content: Seq<char>, names: Seq<Seq<char>>)
    requires
        unique_names(parsed_aliases(content)),
    ensures
        parsed_aliases(
            rebuilt_content(content, delete_batch(parsed_aliases(content), names).current),
        ) == delete_batch(parsed_aliases(content), names).current,
{
    let p = parsed_aliases(content);
    lemma_delete_batch_list(p, names);
    let r = without_names(p, names);
    lemma_without_writable(content, names);
    lemma_without_finds(p, names);
    lemma_kept_without(p, r, names);
    lemma_without_shared(p, names);
    lemma_appended_none(r, r.len() as int, shared_names(p, r));
    lemma_rebuilt_reads_back(content, r);
    assert(r + Seq::<AliasView>::empty() =~= r);
}

} // verus!
