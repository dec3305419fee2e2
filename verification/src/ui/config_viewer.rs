//! The light syntax highlighting of the configuration file viewer: whole-line
//! comments, quoted strings, a keyword at the start of a line and `$`
//! variables; everything else is plain text. It is meant for display and
//! does not follow shell syntax exactly.
use vstd::prelude::*;

use crate::text::{
    char_is_alphanumeric, chars_of, is_whitespace, is_ws, push_all, slice_copy, string_of,
    lemma_trim_start_first, trim_start, unicode_alphanumeric,
};

verus! {

/// The kind of a token; each kind has a CSS class.
#[derive(Debug, Clone, Copy, PartialEq, Eq, Structural)]
pub enum Tok {
    Plain,
    Comment,
    Str,
    Keyword,
    Variable,
}

/// The CSS class of a token kind (none for plain text).
pub fn tok_class(tok: Tok) -> (r: &'static str)
    ensures
        r@ == match tok {
            Tok::Plain => ""@,
            Tok::Comment => "tok-comment"@,
            Tok::Str => "tok-string"@,
            Tok::Keyword => "tok-keyword"@,
            Tok::Variable => "tok-variable"@,
        },
{
    match tok {
        Tok::Plain => "",
        Tok::Comment => "tok-comment",
        Tok::Str => "tok-string",
        Tok::Keyword => "tok-keyword",
        Tok::Variable => "tok-variable",
    }
}

/// The words highlighted when they start a line (common bash, zsh and fish
/// commands).
pub open spec fn keywords() -> Seq<Seq<char>> {
    seq![
        "alias"@,
        "export"@,
        "set"@,
        "unset"@,
        "source"@,
        "unalias"@,
        "function"@,
        "abbr"@,
        "bind"@,
        "complete"@,
        "eval"@,
    ]
}

/// A character of a word: a letter or digit, `_` or `-`.
pub open spec fn is_word_char(c: char) -> bool {
    unicode_alphanumeric(c) || c == '_' || c == '-'
}

/// A character of a variable name: a letter or digit, or `_`.
pub open spec fn is_ident_char(c: char) -> bool {
    unicode_alphanumeric(c) || c == '_'
}

/// How many characters from `j` a double-quoted string takes after its
/// opening quote: up to and including the closing quote, a backslash taking
/// the character after it along; to the end of the line if unclosed.
pub open spec fn dq_len(s: Seq<char>, j: int) -> nat
    decreases s.len() - j,
{
    if j < 0 || j >= s.len() {
        0
    } else if s[j] == '\\' && j + 1 < s.len() {
        2 + dq_len(s, j + 2)
    } else if s[j] == '"' {
        1
    } else {
        1 + dq_len(s, j + 1)
    }
}

/// How many characters from `j` a single-quoted string takes after its
/// opening quote: up to and including the closing quote (no escapes).
pub open spec fn sq_len(s: Seq<char>, j: int) -> nat
    decreases s.len() - j,
{
    if j < 0 || j >= s.len() {
        0
    } else if s[j] == '\'' {
        1
    } else {
        1 + sq_len(s, j + 1)
    }
}

/// How many characters from `j` a `{...}` takes, up to and including `}`.
pub open spec fn brace_len(s: Seq<char>, j: int) -> nat
    decreases s.len() - j,
{
    if j < 0 || j >= s.len() {
        0
    } else if s[j] == '}' {
        1
    } else {
        1 + brace_len(s, j + 1)
    }
}

/// How many characters from `j` satisfy `p` in a row.
pub open spec fn run_len(s: Seq<char>, j: int, ident: bool) -> nat
    decreases s.len() - j,
{
    if j < 0 || j >= s.len() {
        0
    } else if (if ident {
        is_ident_char(s[j])
    } else {
        is_word_char(s[j])
    }) {
        1 + run_len(s, j + 1, ident)
    } else {
        0
    }
}

/// How many characters a variable takes after its `$` at `j - 1`.
pub open spec fn var_len(s: Seq<char>, j: int) -> nat {
    if 0 <= j < s.len() && s[j] == '{' {
        brace_len(s, j)
    } else {
        run_len(s, j, true)
    }
}

/// `out` with the pending plain text added as a token, if there is any.
pub open spec fn flush(out: Seq<(Tok, Seq<char>)>, plain: Seq<char>) -> Seq<(Tok, Seq<char>)> {
    if plain.len() > 0 {
        out.push((Tok::Plain, plain))
    } else {
        out
    }
}

/// The tokens of `s` from index `i`, given whether only white space has been
/// seen so far on the line, the pending plain text and the tokens so far.
pub open spec fn lex(
    s: Seq<char>,
    i: int,
    at_start: bool,
    plain: Seq<char>,
    out: Seq<(Tok, Seq<char>)>,
) -> Seq<(Tok, Seq<char>)>
    decreases s.len() - i,
{
    if i < 0 || i >= s.len() {
        flush(out, plain)
    } else {
        let c = s[i];
        if c == '"' {
            proof {
                lemma_dq_len(s, i + 1);
            }
            let e = i + 1 + dq_len(s, i + 1);
            lex(s, e, false, Seq::empty(), flush(out, plain).push((Tok::Str, s.subrange(i, e))))
        } else if c == '\'' {
            proof {
                lemma_sq_len(s, i + 1);
            }
            let e = i + 1 + sq_len(s, i + 1);
            lex(s, e, false, Seq::empty(), flush(out, plain).push((Tok::Str, s.subrange(i, e))))
        } else if c == '#' && (i == 0 || s[i - 1] == ' ' || s[i - 1] == '\t') {
            flush(out, plain).push((Tok::Comment, s.subrange(i, s.len() as int)))
        } else if c == '$' {
            proof {
                lemma_brace_len(s, i + 1);
                lemma_run_len(s, i + 1, true);
            }
            let e = i + 1 + var_len(s, i + 1);
            lex(
                s,
                e,
                false,
                Seq::empty(),
                flush(out, plain).push((Tok::Variable, s.subrange(i, e))),
            )
        } else if is_word_char(c) {
            proof {
                lemma_run_len(s, i + 1, false);
            }
            let e = i + 1 + run_len(s, i + 1, false);
            let w = s.subrange(i, e);
            if at_start && keywords().contains(w) {
                lex(s, e, false, Seq::empty(), flush(out, plain).push((Tok::Keyword, w)))
            } else {
                lex(s, e, false, plain + w, out)
            }
        } else {
            lex(s, i + 1, at_start && is_ws(c), plain.push(c), out)
        }
    }
}

/// The tokens of a configuration line: the whole line as one comment when
/// its first non-blank character is `#`, otherwise as `lex` splits it.
pub open spec fn line_tokens(s: Seq<char>) -> Seq<(Tok, Seq<char>)> {
    let t = trim_start(s);
    if t.len() > 0 && t[0] == '#' {
        seq![(Tok::Comment, s)]
    } else {
        lex(s, 0, true, Seq::empty(), Seq::empty())
    }
}

/// The views of a token list.
pub open spec fn token_views(v: Seq<(Tok, String)>) -> Seq<(Tok, Seq<char>)> {
    v.map_values(|t: (Tok, String)| (t.0, t.1@))
}

pub proof fn lemma_dq_len(s: Seq<char>, j: int)
    requires
        0 <= j <= s.len(),
    ensures
        j + dq_len(s, j) <= s.len(),
    decreases s.len() - j,
{
    if j < s.len() {
        if s[j] == '\\' && j + 1 < s.len() {
            lemma_dq_len(s, j + 2);
        } else if s[j] != '"' {
            lemma_dq_len(s, j + 1);
        }
    }
}

pub proof fn lemma_sq_len(s: Seq<char>, j: int)
    requires
        0 <= j <= s.len(),
    ensures
        j + sq_len(s, j) <= s.len(),
    decreases s.len() - j,
{
    if j < s.len() && s[j] != '\'' {
        lemma_sq_len(s, j + 1);
    }
}

pub proof fn lemma_brace_len(s: Seq<char>, j: int)
    requires
        0 <= j <= s.len(),
    ensures
        j + brace_len(s, j) <= s.len(),
    decreases s.len() - j,
{
    if j < s.len() && s[j] != '}' {
        lemma_brace_len(s, j + 1);
    }
}

pub proof fn lemma_run_len(s: Seq<char>, j: int, ident: bool)
    requires
        0 <= j <= s.len(),
    ensures
        j + run_len(s, j, ident) <= s.len(),
    decreases s.len() - j,
{
    if j < s.len() {
        lemma_run_len(s, j + 1, ident);
    }
}

/// The end of a double-quoted string whose contents start at `j`.
fn dq_end(v: &[char], j: usize) -> (e: usize)
    requires
        j <= v@.len(),
    ensures
        e == j + dq_len(v@, j as int),
{
    let mut k = j;
    while k < v.len()
        invariant
            j <= k <= v@.len(),
            dq_len(v@, j as int) == (k - j) + dq_len(v@, k as int),
        decreases v@.len() - k,
    {
        if v[k] == '\\' && k + 1 < v.len() {
            k = k + 2;
        } else if v[k] == '"' {
            return k + 1;
        } else {
            k = k + 1;
        }
    }
    k
}

/// The end of a single-quoted string whose contents start at `j`.
fn sq_end(v: &[char], j: usize) -> (e: usize)
    requires
        j <= v@.len(),
    ensures
        e == j + sq_len(v@, j as int),
{
    let mut k = j;
    while k < v.len()
        invariant
            j <= k <= v@.len(),
            sq_len(v@, j as int) == (k - j) + sq_len(v@, k as int),
        decreases v@.len() - k,
    {
        if v[k] == '\'' {
            return k + 1;
        }
        k = k + 1;
    }
    k
}

/// The end of a `{...}` that starts at `j`.
fn brace_end(v: &[char], j: usize) -> (e: usize)
    requires
        j <= v@.len(),
    ensures
        e == j + brace_len(v@, j as int),
{
    let mut k = j;
    while k < v.len()
        invariant
            j <= k <= v@.len(),
            brace_len(v@, j as int) == (k - j) + brace_len(v@, k as int),
        decreases v@.len() - k,
    {
        if v[k] == '}' {
            return k + 1;
        }
        k = k + 1;
    }
    k
}

/// The end of the run of word (or, with `ident`, name) characters from `j`.
fn run_end(v: &[char], j: usize, ident: bool) -> (e: usize)
    requires
        j <= v@.len(),
    ensures
        e == j + run_len(v@, j as int, ident),
{
    let mut k = j;
    while k < v.len()
        invariant
            j <= k <= v@.len(),
            run_len(v@, j as int, ident) == (k - j) + run_len(v@, k as int, ident),
        decreases v@.len() - k,
    {
        let c = v[k];
        let ok = if ident {
            char_is_alphanumeric(c) || c == '_'
        } else {
            char_is_alphanumeric(c) || c == '_' || c == '-'
        };
        if !ok {
            return k;
        }
        k = k + 1;
    }
    k
}

/// Whether `w` is one of the highlighted keywords.
fn is_keyword(w: &[char]) -> (r: bool)
    ensures
        r == keywords().contains(w@),
{
    let kws = ["alias", "export", "set", "unset", "source", "unalias", "function", "abbr", "bind", "complete", "eval"];
    let ghost kw = keywords();
    let mut i: usize = 0;
    while i < 11
        invariant
            i <= 11,
            kws@.len() == 11,
            kw == keywords(),
            kw.len() == 11,
            forall|j: int| 0 <= j < 11 ==> #[trigger] kws@[j]@ == kw[j],
            forall|j: int| 0 <= j < i ==> kw[j] != w@,
        decreases 11 - i,
    {
        if crate::text::chars_eq(&chars_of(kws[i]), w) {
            assert(kw[i as int] == w@);
            return true;
        }
        i = i + 1;
    }
    false
}

/// `out` with `plain` added as a plain token if it is not empty; `plain` is
/// emptied.
fn flush_plain(out: &mut Vec<(Tok, String)>, plain: &mut Vec<char>)
    ensures
        token_views(final(out)@) == flush(token_views(old(out)@), old(plain)@),
        final(plain)@ == Seq::<char>::empty(),
{
    if plain.len() > 0 {
        let ghost o0 = token_views(out@);
        let p = string_of(plain);
        out.push((Tok::Plain, p));
        assert(token_views(out@) =~= o0.push((Tok::Plain, p@)));
        *plain = Vec::new();
    } else {
        assert(plain@ =~= Seq::<char>::empty());
    }
}

/// Pushes a token onto `out`.
fn push_token(out: &mut Vec<(Tok, String)>, tok: Tok, text: &[char])
    ensures
        token_views(final(out)@) == token_views(old(out)@).push((tok, text@)),
{
    let ghost o0 = token_views(out@);
    let t = string_of(text);
    out.push((tok, t));
    assert(token_views(out@) =~= o0.push((tok, t@)));
}

/// Splits one line of a configuration file into highlighted tokens: a line
/// whose first non-blank character is `#` is one comment; otherwise quoted
/// strings, an inline comment after white space, `$` variables and a keyword
/// as the first word are their own tokens, and the rest is plain text.
pub fn tokenize_line(line: &str) -> (r: Vec<(Tok, String)>)
    ensures
        token_views(r@) == line_tokens(line@),
{
    let chars = chars_of(line);
    let ghost s = chars@;
    let n = chars.len();
    let mut a: usize = 0;
    while a < n && is_whitespace(chars[a])
        invariant
            n == chars@.len(),
            s == chars@,
            a <= n,
            forall|j: int| 0 <= j < a ==> is_ws(#[trigger] s[j]),
        decreases n - a,
    {
        a = a + 1;
    }
    proof {
        lemma_trim_start_first(s);
        let k = s.len() - trim_start(s).len();
        if a < k {
            assert(is_ws(s[a as int]));
        }
        if k < a {
            assert(is_ws(s[k]));
            assert(trim_start(s)[0] == s[k]);
        }
        assert(a == k);
        if a < n {
            assert(trim_start(s)[0] == s[a as int]);
        }
    }
    if a < n && chars[a] == '#' {
        let mut out: Vec<(Tok, String)> = Vec::new();
        push_token(&mut out, Tok::Comment, &chars);
        assert(token_views(out@) =~= seq![(Tok::Comment, s)]);
        return out;
    }
    let mut out: Vec<(Tok, String)> = Vec::new();
    let mut plain: Vec<char> = Vec::new();
    assert(token_views(out@) =~= Seq::empty());
    assert(plain@ =~= Seq::empty());
    let mut at_line_start = true;
    let mut i: usize = 0;
    while i < n
        invariant
            n == chars@.len(),
            s == chars@,
            i <= n,
            s == line@,
            line_tokens(s) == lex(s, 0, true, Seq::empty(), Seq::empty()),
            lex(s, i as int, at_line_start, plain@, token_views(out@)) == lex(
                s,
                0,
                true,
                Seq::empty(),
                Seq::empty(),
            ),
        decreases n - i,
    {
        let c = chars[i];
        if c == '"' {
            proof {
                lemma_dq_len(s, i + 1);
            }
            let e = dq_end(&chars, i + 1);
            flush_plain(&mut out, &mut plain);
            push_token(&mut out, Tok::Str, &slice_copy(&chars, i, e));
            at_line_start = false;
            i = e;
        } else if c == '\'' {
            proof {
                lemma_sq_len(s, i + 1);
            }
            let e = sq_end(&chars, i + 1);
            flush_plain(&mut out, &mut plain);
            push_token(&mut out, Tok::Str, &slice_copy(&chars, i, e));
            at_line_start = false;
            i = e;
        } else if c == '#' && (i == 0 || chars[i - 1] == ' ' || chars[i - 1] == '\t') {
            flush_plain(&mut out, &mut plain);
            push_token(&mut out, Tok::Comment, &slice_copy(&chars, i, n));
            return out;
        } else if c == '$' {
            let e = if i + 1 < n && chars[i + 1] == '{' {
                proof {
                    lemma_brace_len(s, i + 1);
                }
                brace_end(&chars, i + 1)
            } else {
                proof {
                    lemma_run_len(s, i + 1, true);
                }
                run_end(&chars, i + 1, true)
            };
            flush_plain(&mut out, &mut plain);
            push_token(&mut out, Tok::Variable, &slice_copy(&chars, i, e));
            at_line_start = false;
            i = e;
        } else if char_is_alphanumeric(c) || c == '_' || c == '-' {
            proof {
                lemma_run_len(s, i + 1, false);
            }
            let e = run_end(&chars, i + 1, false);
            let w = slice_copy(&chars, i, e);
            if at_line_start && is_keyword(&w) {
                flush_plain(&mut out, &mut plain);
                push_token(&mut out, Tok::Keyword, &w);
            } else {
                push_all(&mut plain, &w);
            }
            at_line_start = false;
            i = e;
        } else {
            if !is_whitespace(c) {
                at_line_start = false;
            }
            plain.push(c);
            i = i + 1;
        }
    }
    flush_plain(&mut out, &mut plain);
    out
}

/// The texts of a token list, joined in order.
pub open spec fn joined_texts(t: Seq<(Tok, Seq<char>)>) -> Seq<char>
    decreases t.len(),
{
    if t.len() == 0 {
        Seq::empty()
    } else {
        joined_texts(t.drop_last()) + t.last().1
    }
}

proof fn lemma_joined_push(t: Seq<(Tok, Seq<char>)>, x: (Tok, Seq<char>))
    ensures
        joined_texts(t.push(x)) == joined_texts(t) + x.1,
{
    assert(t.push(x).drop_last() =~= t);
}

proof fn lemma_joined_flush(out: Seq<(Tok, Seq<char>)>, plain: Seq<char>)
    ensures
        joined_texts(flush(out, plain)) == joined_texts(out) + plain,
{
    if plain.len() > 0 {
        lemma_joined_push(out, (Tok::Plain, plain));
    } else {
        assert(joined_texts(out) + plain =~= joined_texts(out));
    }
}

/// Splitting from index `i` gives back, joined, the tokens so far, the pending
/// plain text and the rest of the line.
proof fn lemma_lex_joined(
    s: Seq<char>,
    i: int,
    at_start: bool,
    plain: Seq<char>,
    out: Seq<(Tok, Seq<char>)>,
)
    requires
        0 <= i <= s.len(),
    ensures
        joined_texts(lex(s, i, at_start, plain, out)) == joined_texts(out) + plain + s.subrange(
            i,
            s.len() as int,
        ),
    decreases s.len() - i,
{
    let n = s.len() as int;
    if i >= n {
        lemma_joined_flush(out, plain);
        assert(joined_texts(out) + plain + s.subrange(i, n) =~= joined_texts(out) + plain);
    } else {
        let c = s[i];
        lemma_joined_flush(out, plain);
        let f = flush(out, plain);
        if c == '"' || c == '\'' || c == '$' || (is_word_char(c) && !(c == '#' && (i == 0
            || s[i - 1] == ' ' || s[i - 1] == '\t'))) {
            lemma_dq_len(s, i + 1);
            lemma_sq_len(s, i + 1);
            lemma_brace_len(s, i + 1);
            lemma_run_len(s, i + 1, true);
            lemma_run_len(s, i + 1, false);
            let e: int = if c == '"' {
                i + 1 + dq_len(s, i + 1)
            } else if c == '\'' {
                i + 1 + sq_len(s, i + 1)
            } else if c == '$' {
                i + 1 + var_len(s, i + 1)
            } else {
                i + 1 + run_len(s, i + 1, false)
            };
            let w = s.subrange(i, e);
            assert(w + s.subrange(e, n) =~= s.subrange(i, n));
            if c != '"' && c != '\'' && c != '$' && !(at_start && keywords().contains(w)) {
                lemma_lex_joined(s, e, false, plain + w, out);
                assert(joined_texts(out) + (plain + w) + s.subrange(e, n) =~= joined_texts(out)
                    + plain + s.subrange(i, n));
            } else {
                let tok = if c == '"' || c == '\'' {
                    Tok::Str
                } else if c == '$' {
                    Tok::Variable
                } else {
                    Tok::Keyword
                };
                lemma_lex_joined(s, e, false, Seq::empty(), f.push((tok, w)));
                lemma_joined_push(f, (tok, w));
                assert(joined_texts(f.push((tok, w))) + Seq::<char>::empty() + s.subrange(e, n)
                    =~= joined_texts(out) + plain + s.subrange(i, n));
            }
        } else if c == '#' && (i == 0 || s[i - 1] == ' ' || s[i - 1] == '\t') {
            lemma_joined_push(f, (Tok::Comment, s.subrange(i, n)));
            assert(joined_texts(f) + s.subrange(i, n) =~= joined_texts(out) + plain + s.subrange(
                i,
                n,
            ));
        } else {
            lemma_lex_joined(s, i + 1, at_start && is_ws(c), plain.push(c), out);
            assert(joined_texts(out) + plain.push(c) + s.subrange(i + 1, n) =~= joined_texts(out)
                + plain + s.subrange(i, n));
        }
    }
}

/// Tokenizing loses and adds nothing: the texts of the tokens of a line,
/// joined in order, are the line.
pub proof fn lemma_tokens_join_to_line(line: Seq<char>)
    ensures
        joined_texts(line_tokens(line)) == line,
{
    let t = trim_start(line);
    if t.len() > 0 && t[0] == '#' {
        lemma_joined_push(Seq::empty(), (Tok::Comment, line));
        assert(seq![(Tok::Comment, line)] =~= Seq::<(Tok, Seq<char>)>::empty().push(
            (Tok::Comment, line),
        ));
        assert(Seq::<char>::empty() + line =~= line);
    } else {
        lemma_lex_joined(line, 0, true, Seq::empty(), Seq::empty());
        assert(Seq::<char>::empty() + Seq::<char>::empty() + line.subrange(0, line.len() as int)
            =~= line);
    }
}

/// A run of word characters from `j` up to `k`, where the run stops, is
/// `k - j` long.
proof fn lemma_run_word(s: Seq<char>, j: int, k: int)
    requires
        0 <= j <= k <= s.len(),
        forall|m: int| j <= m < k ==> is_word_char(#[trigger] s[m]),
        k == s.len() || !is_word_char(s[k]),
    ensures
        run_len(s, j, false) == k - j,
    decreases k - j,
{
    if j < k {
        lemma_run_word(s, j + 1, k);
    }
}

/// `out` with the pending plain text flushed starts with `out`.
proof fn lemma_flush_keeps(out: Seq<(Tok, Seq<char>)>, plain: Seq<char>)
    ensures
        flush(out, plain).len() >= out.len(),
        forall|k: int| 0 <= k < out.len() ==> #[trigger] flush(out, plain)[k] == out[k],
{
}

/// The tokens that lexing gives start with the tokens given to it.
proof fn lemma_lex_keeps(
    s: Seq<char>,
    i: int,
    at_start: bool,
    plain: Seq<char>,
    out: Seq<(Tok, Seq<char>)>,
)
    requires
        0 <= i,
    ensures
        lex(s, i, at_start, plain, out).len() >= out.len(),
        forall|k: int|
            0 <= k < out.len() ==> #[trigger] lex(s, i, at_start, plain, out)[k] == out[k],
    decreases s.len() - i,
{
    lemma_flush_keeps(out, plain);
    if i < s.len() {
        let c = s[i];
        let f = flush(out, plain);
        if c == '"' {
            lemma_dq_len(s, i + 1);
            let e = i + 1 + dq_len(s, i + 1);
            lemma_lex_keeps(s, e, false, Seq::empty(), f.push((Tok::Str, s.subrange(i, e))));
        } else if c == '\'' {
            lemma_sq_len(s, i + 1);
            let e = i + 1 + sq_len(s, i + 1);
            lemma_lex_keeps(s, e, false, Seq::empty(), f.push((Tok::Str, s.subrange(i, e))));
        } else if c == '#' && (i == 0 || s[i - 1] == ' ' || s[i - 1] == '\t') {
        } else if c == '$' {
            lemma_brace_len(s, i + 1);
            lemma_run_len(s, i + 1, true);
            let e = i + 1 + var_len(s, i + 1);
            lemma_lex_keeps(s, e, false, Seq::empty(), f.push((Tok::Variable, s.subrange(i, e))));
        } else if is_word_char(c) {
            lemma_run_len(s, i + 1, false);
            let e = i + 1 + run_len(s, i + 1, false);
            let w = s.subrange(i, e);
            if at_start && keywords().contains(w) {
                lemma_lex_keeps(s, e, false, Seq::empty(), f.push((Tok::Keyword, w)));
            } else {
                lemma_lex_keeps(s, e, false, plain + w, out);
            }
        } else {
            lemma_lex_keeps(s, i + 1, at_start && is_ws(c), plain.push(c), out);
        }
    }
}

/// The keyword law: a line that starts with one of the words `alias`,
/// `export`, `set`, `unset`, `source`, `unalias`, `function`, `abbr`,
/// `bind`, `complete` or `eval` (the whole first word, without blanks before
/// it) has that word as its first token, highlighted as a keyword.
pub proof fn lemma_keyword_starts_line(s: Seq<char>, n: int)
    requires
        0 < n <= s.len(),
        forall|m: int| 0 <= m < n ==> is_word_char(#[trigger] s[m]),
        n == s.len() || !is_word_char(s[n]),
        ({
            let w = s.subrange(0, n);
            ||| w == "alias"@
            ||| w == "export"@
            ||| w == "set"@
            ||| w == "unset"@
            ||| w == "source"@
            ||| w == "unalias"@
            ||| w == "function"@
            ||| w == "abbr"@
            ||| w == "bind"@
            ||| w == "complete"@
            ||| w == "eval"@
        }),
    ensures
        line_tokens(s).len() > 0,
        line_tokens(s)[0] == (Tok::Keyword, s.subrange(0, n)),
{
    reveal_strlit("alias");
    reveal_strlit("export");
    reveal_strlit("set");
    reveal_strlit("unset");
    reveal_strlit("source");
    reveal_strlit("unalias");
    reveal_strlit("function");
    reveal_strlit("abbr");
    reveal_strlit("bind");
    reveal_strlit("complete");
    reveal_strlit("eval");
    let w = s.subrange(0, n);
    let kw = keywords();
    assert(w[0] == s[0]);
    assert(kw.contains(w)) by {
        if w == "alias"@ {
            assert(kw[0] == w);
        } else if w == "export"@ {
            assert(kw[1] == w);
        } else if w == "set"@ {
            assert(kw[2] == w);
        } else if w == "unset"@ {
            assert(kw[3] == w);
        } else if w == "source"@ {
            assert(kw[4] == w);
        } else if w == "unalias"@ {
            assert(kw[5] == w);
        } else if w == "function"@ {
            assert(kw[6] == w);
        } else if w == "abbr"@ {
            assert(kw[7] == w);
        } else if w == "bind"@ {
            assert(kw[8] == w);
        } else if w == "complete"@ {
            assert(kw[9] == w);
        } else {
            assert(kw[10] == w);
        }
    }
    let c = s[0];
    assert('a' <= c <= 'z');
    assert(!is_ws(c));
    assert(trim_start(s) == s);
    lemma_run_word(s, 1, n);
    let e: int = 1 + run_len(s, 1, false) as int;
    assert(e == n);
    let empty_toks = Seq::<(Tok, Seq<char>)>::empty();
    assert(flush(empty_toks, Seq::empty()) == empty_toks);
    let first = empty_toks.push((Tok::Keyword, w));
    assert(line_tokens(s) == lex(s, 0, true, Seq::empty(), empty_toks));
    assert(lex(s, 0, true, Seq::empty(), empty_toks) == lex(s, e, false, Seq::empty(), first));
    lemma_lex_keeps(s, e, false, Seq::empty(), first);
    assert(first[0] == (Tok::Keyword, w));
}

/// The highlighted words are exactly `alias`, `export`, `set`, `unset`,
/// `source`, `unalias`, `function`, `abbr`, `bind`, `complete` and `eval`.
pub proof fn lemma_keywords_are(w: Seq<char>)
    ensures
        keywords().contains(w) <==> {
            ||| w == "alias"@
            ||| w == "export"@
            ||| w == "set"@
            ||| w == "unset"@
            ||| w == "source"@
            ||| w == "unalias"@
            ||| w == "function"@
            ||| w == "abbr"@
            ||| w == "bind"@
            ||| w == "complete"@
            ||| w == "eval"@
        },
{
    let kw = keywords();
    assert(kw.len() == 11);
    if kw.contains(w) {
        let k = choose|k: int| 0 <= k < kw.len() && kw[k] == w;
        assert(0 <= k < 11);
    }
    if w == "alias"@ {
        assert(kw[0] == w);
    } else if w == "export"@ {
        assert(kw[1] == w);
    } else if w == "set"@ {
        assert(kw[2] == w);
    } else if w == "unset"@ {
        assert(kw[3] == w);
    } else if w == "source"@ {
        assert(kw[4] == w);
    } else if w == "unalias"@ {
        assert(kw[5] == w);
    } else if w == "function"@ {
        assert(kw[6] == w);
    } else if w == "abbr"@ {
        assert(kw[7] == w);
    } else if w == "bind"@ {
        assert(kw[8] == w);
    } else if w == "complete"@ {
        assert(kw[9] == w);
    } else if w == "eval"@ {
        assert(kw[10] == w);
    }
}

} // verus!
