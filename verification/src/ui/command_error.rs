//! The structured error that a backend command hands to the interface, and
//! its localised text.
use vstd::prelude::*;

use crate::error::{concat2, concat3};
use crate::text::{chars_eq, chars_of, push_all, string_of, trim, trimmed};
use crate::ui::i18n::{translate, translation, Locale};

verus! {

/// An error returned by a backend command: a stable machine-readable code
/// (such as `alias_conflict`), an English fallback message and optional
/// context (an alias name, a file path).
#[derive(Debug, Clone)]
pub struct CommandError {
    pub code: String,
    pub message: String,
    pub detail: Option<String>,
}

/// The view of an optional string.
pub open spec fn opt_view(o: Option<String>) -> Option<Seq<char>> {
    match o {
        Some(s) => Some(s@),
        None => None,
    }
}

/// `s` with every `{}` replaced by `d`, scanning from the left.
pub open spec fn fill_braces(s: Seq<char>, d: Seq<char>) -> Seq<char>
    decreases s.len(),
{
    if s.len() == 0 {
        Seq::empty()
    } else if s.len() >= 2 && s[0] == '{' && s[1] == '}' {
        d + fill_braces(s.skip(2), d)
    } else {
        seq![s[0]] + fill_braces(s.skip(1), d)
    }
}

/// `s` without its trailing colons.
pub open spec fn strip_colons(s: Seq<char>) -> Seq<char>
    decreases s.len(),
{
    if s.len() > 0 && s.last() == ':' {
        strip_colons(s.drop_last())
    } else {
        s
    }
}

/// The backend message, with the context in brackets when there is one.
pub open spec fn fallback_text(message: Seq<char>, detail: Option<Seq<char>>) -> Seq<char> {
    match detail {
        Some(d) => message + " ("@ + d + ")"@,
        None => message,
    }
}

/// The text shown for an error: the translation of `error.<code>` with `{}`
/// filled by the context (or, without context, removed together with the
/// colon and blanks it leaves at the end); the backend message for the codes
/// `internal` and `unknown` and for codes without a translation.
pub open spec fn error_display(
    code: Seq<char>,
    message: Seq<char>,
    detail: Option<Seq<char>>,
    locale: Locale,
) -> Seq<char> {
    let tr = translation(locale, "error."@ + code);
    if code == "internal"@ || code == "unknown"@ || tr == "[missing]"@ {
        fallback_text(message, detail)
    } else {
        match detail {
            Some(d) => fill_braces(tr, d),
            None => trim(strip_colons(trim(fill_braces(tr, Seq::empty())))),
        }
    }
}

/// `s` with every `{}` replaced by `d`.
pub fn replace_braces(s: &[char], d: &[char]) -> (r: Vec<char>)
    ensures
        r@ == fill_braces(s@, d@),
{
    let mut out: Vec<char> = Vec::new();
    let mut i: usize = 0;
    assert(s@.skip(0) =~= s@);
    while i < s.len()
        invariant
            i <= s@.len(),
            out@ + fill_braces(s@.skip(i as int), d@) == fill_braces(s@, d@),
        decreases s@.len() - i,
    {
        let ghost rest = s@.skip(i as int);
        let ghost o0 = out@;
        if i + 1 < s.len() && s[i] == '{' && s[i + 1] == '}' {
            push_all(&mut out, d);
            assert(rest.skip(2) =~= s@.skip(i + 2));
            assert(o0 + (d@ + fill_braces(rest.skip(2), d@)) =~= out@ + fill_braces(s@.skip(i + 2), d@));
            i = i + 2;
        } else {
            out.push(s[i]);
            assert(rest.skip(1) =~= s@.skip(i + 1));
            assert(o0 + (seq![rest[0]] + fill_braces(rest.skip(1), d@)) =~= out@ + fill_braces(
                s@.skip(i + 1),
                d@,
            ));
            i = i + 1;
        }
    }
    assert(out@ + fill_braces(s@.skip(s@.len() as int), d@) =~= out@);
    out
}

/// `s` without its trailing colons.
pub fn without_trailing_colons(s: &[char]) -> (r: Vec<char>)
    ensures
        r@ == strip_colons(s@),
{
    let mut e = s.len();
    assert(s@.take(e as int) =~= s@);
    while e > 0 && s[e - 1] == ':'
        invariant
            e <= s@.len(),
            strip_colons(s@) == strip_colons(s@.take(e as int)),
        decreases e,
    {
        assert(s@.take(e as int).drop_last() =~= s@.take(e - 1));
        e = e - 1;
    }
    let r = crate::text::slice_copy(s, 0, e);
    assert(r@ =~= s@.take(e as int));
    r
}

impl CommandError {
    /// An error of the command bridge itself (code `internal`).
    pub fn internal(message: String) -> (r: CommandError)
        ensures
            r.code@ == "internal"@,
            r.message@ == message@,
            r.detail is None,
    {
        CommandError { code: String::from_str("internal"), message, detail: None }
    }

    /// The localised text of this error in `locale`: the translation of
    /// `error.<code>`, its `{}` filled with the context, or with no context
    /// removed together with what it leaves at the end; the backend message
    /// (with the context in brackets) for `internal`, `unknown` and codes
    /// without a translation.
    pub fn display(&self, locale: Locale) -> (r: String)
        ensures
            r@ == error_display(self.code@, self.message@, opt_view(self.detail), locale),
    {
        let code = chars_of(self.code.as_str());
        let key = concat2("error.", self.code.as_str());
        let tr = translate(locale, key.as_str());
        let trc = chars_of(tr.as_str());
        if chars_eq(&code, &chars_of("internal")) || chars_eq(&code, &chars_of("unknown"))
            || chars_eq(&trc, &chars_of("[missing]")) {
            return match &self.detail {
                Some(d) => {
                    let mut r = concat3(self.message.as_str(), " (", d.as_str());
                    r.append(")");
                    r
                },
                None => self.message.clone(),
            };
        }
        match &self.detail {
            Some(d) => string_of(&replace_braces(&trc, &chars_of(d.as_str()))),
            None => {
                let empty: Vec<char> = Vec::new();
                let filled = replace_braces(&trc, &empty);
                let t1 = trimmed(&filled);
                let t2 = without_trailing_colons(&t1);
                string_of(&trimmed(&t2))
            },
        }
    }

    /// The error as one line: `[code] message`, followed by ` (detail)` when
    /// there is context.
    pub fn describe(&self) -> (r: String)
        ensures
            r@ == "["@ + self.code@ + "] "@ + fallback_text(self.message@, opt_view(self.detail)),
    {
        let head = concat3("[", self.code.as_str(), "] ");
        match &self.detail {
            Some(d) => {
                let mut r = concat3(head.as_str(), self.message.as_str(), " (");
                r.append(d.as_str());
                r.append(")");
                r
            },
            None => concat2(head.as_str(), self.message.as_str()),
        }
    }
}

} // verus!
