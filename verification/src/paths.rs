//! Path arithmetic on Unix paths held as strings: joining a component onto a
//! directory (as `Path::join` does) and the final component (as
//! `Path::file_name` gives it).
use vstd::prelude::*;

use crate::text::{
    chars_eq, chars_of, decimal, decimal_string, push_all, split, split_chars, string_of, views,
};

verus! {

/// `base` joined with `comp`: an absolute `comp` replaces `base`; otherwise a
/// `/` is put between them unless `base` is empty or already ends with one.
pub open spec fn join_path(base: Seq<char>, comp: Seq<char>) -> Seq<char> {
    if comp.len() > 0 && comp[0] == '/' {
        comp
    } else if base.len() > 0 && base.last() != '/' {
        base + seq!['/'] + comp
    } else {
        base + comp
    }
}

/// Joins a path component onto a directory path.
pub fn join(base: &str, comp: &str) -> (r: String)
    ensures
        r@ == join_path(base@, comp@),
{
    let b = chars_of(base);
    let c = chars_of(comp);
    if c.len() > 0 && c[0] == '/' {
        return string_of(&c);
    }
    let mut out = b;
    if out.len() > 0 && out[out.len() - 1] != '/' {
        out.push('/');
    }
    push_all(&mut out, &c);
    string_of(&out)
}

/// The named components of a path: the pieces between slashes that are
/// neither empty nor `.`.
pub open spec fn named_components(pieces: Seq<Seq<char>>) -> Seq<Seq<char>>
    decreases pieces.len(),
{
    if pieces.len() == 0 {
        Seq::empty()
    } else {
        let rest = named_components(pieces.drop_last());
        let p = pieces.last();
        if p.len() == 0 || p == seq!['.'] {
            rest
        } else {
            rest.push(p)
        }
    }
}

/// The final component of a path, unless the path has none or ends in `..`.
pub open spec fn file_name(path: Seq<char>) -> Option<Seq<char>> {
    let comps = named_components(split(path, '/'));
    if comps.len() == 0 || comps.last() == seq!['.', '.'] {
        None
    } else {
        Some(comps.last())
    }
}

/// The final component of a path, as characters.
pub fn file_name_chars(path: &[char]) -> (r: Option<Vec<char>>)
    ensures
        match r {
            Some(n) => file_name(path@) == Some(n@),
            None => file_name(path@) is None,
        },
{
    let pieces = split_chars(path, '/');
    let dot = vec!['.'];
    let dotdot = vec!['.', '.'];
    assert(dot@ =~= seq!['.']);
    assert(dotdot@ =~= seq!['.', '.']);
    let mut last: Option<Vec<char>> = None;
    let mut i: usize = 0;
    while i < pieces.len()
        invariant
            i <= pieces@.len(),
            dot@ == seq!['.'],
            match last {
                Some(l) => {
                    let c = named_components(views(pieces@).take(i as int));
                    c.len() > 0 && c.last() == l@
                },
                None => named_components(views(pieces@).take(i as int)).len() == 0,
            },
        decreases pieces@.len() - i,
    {
        let ghost cur = views(pieces@).take(i + 1);
        assert(cur.drop_last() =~= views(pieces@).take(i as int));
        assert(cur.last() == pieces@[i as int]@);
        if !(pieces[i].len() == 0 || chars_eq(&pieces[i], &dot)) {
            last = Some(slice_all(&pieces[i]));
        }
        i = i + 1;
    }
    assert(views(pieces@).take(pieces@.len() as int) =~= views(pieces@));
    match last {
        Some(l) => {
            if chars_eq(&l, &dotdot) {
                None
            } else {
                Some(l)
            }
        },
        None => None,
    }
}

/// A copy of `v`.
fn slice_all(v: &[char]) -> (r: Vec<char>)
    ensures
        r@ == v@,
{
    let mut r: Vec<char> = Vec::new();
    push_all(&mut r, v);
    r
}

/// The final component of a path, if any.
pub fn path_file_name(path: &str) -> (r: Option<String>)
    ensures
        match r {
            Some(n) => file_name(path@) == Some(n@),
            None => file_name(path@) is None,
        },
{
    match file_name_chars(&chars_of(path)) {
        Some(n) => Some(string_of(&n)),
        None => None,
    }
}

/// The name of the temporary file that an atomic write first fills: a dot,
/// the target's file name (`unknown` when it has none), `.tmp.` and the
/// process number.
pub open spec fn temp_name(file_name: Option<Seq<char>>, pid: u32) -> Seq<char> {
    "."@ + match file_name {
        Some(n) => n,
        None => "unknown"@,
    } + ".tmp."@ + decimal(pid as nat)
}

/// The name of the temporary file for an atomic write of a file with the
/// given name, by the process `pid`.
pub fn temp_file_name(file_name: Option<&str>, pid: u32) -> (r: String)
    ensures
        r@ == temp_name(
            match file_name {
                Some(n) => Some(n@),
                None => None,
            },
            pid,
        ),
{
    let mut r = String::from_str(".");
    match file_name {
        Some(n) => r.append(n),
        None => r.append("unknown"),
    }
    r.append(".tmp.");
    let digits = decimal_string(pid as u64);
    r.append(digits.as_str());
    r
}

} // verus!
