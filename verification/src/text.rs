//! Character-sequence helpers: the text model used by every contract of the
//! crate. A string is viewed as its sequence of `char`s.
use vstd::prelude::*;

verus! {

/// `String::push` appends one character.
pub assume_specification[ String::push ](string: &mut String, ch: char)
    ensures
        final(string)@ == old(string)@.push(ch),
;

/// The Unicode `White_Space` property, which `char::is_whitespace` (and so
/// `str::trim`) tests.
pub open spec fn is_ws(c: char) -> bool {
    let u = c as u32;
    ||| 9 <= u <= 13
    ||| u == 32
    ||| u == 0x85
    ||| u == 0xA0
    ||| u == 0x1680
    ||| 0x2000 <= u <= 0x200A
    ||| u == 0x2028
    ||| u == 0x2029
    ||| u == 0x202F
    ||| u == 0x205F
    ||| u == 0x3000
}

/// Whether `c` is a Unicode white-space character.
pub fn is_whitespace(c: char) -> (r: bool)
    ensures
        r == is_ws(c),
{
    let u = c as u32;
    (9 <= u && u <= 13) || u == 32 || u == 0x85 || u == 0xA0 || u == 0x1680 || (0x2000 <= u && u
        <= 0x200A) || u == 0x2028 || u == 0x2029 || u == 0x202F || u == 0x205F || u == 0x3000
}

/// ASCII letters and digits.
pub open spec fn is_ascii_alnum(c: char) -> bool {
    ('a' <= c && c <= 'z') || ('A' <= c && c <= 'Z') || ('0' <= c && c <= '9')
}

/// Whether `c` has the Unicode `Alphabetic` or `Numeric` property, as
/// `char::is_alphanumeric` decides it.
pub uninterp spec fn unicode_alphanumeric(c: char) -> bool;

/// Calls `char::is_alphanumeric`. Its documentation defines the result as
/// "alphabetic or numeric" in the Unicode sense, which is named here; the one
/// further fact stated is the one for ASCII, where those properties hold exactly
/// of the letters and digits.
#[verifier::external_body]
pub(crate) fn char_is_alphanumeric(c: char) -> (r: bool)
    ensures
        r == unicode_alphanumeric(c),
        (c as u32) < 128 ==> (r <==> is_ascii_alnum(c)),
{
    c.is_alphanumeric()
}

/// The lowercase mapping of a whole string, as `str::to_lowercase` computes it.
pub uninterp spec fn unicode_lowercase(s: Seq<char>) -> Seq<char>;

/// Calls `str::to_lowercase`, whose result is the Unicode lowercase mapping of
/// its argument, named here; nothing else is claimed of it.
#[verifier::external_body]
pub(crate) fn to_lowercase(s: &str) -> (r: String)
    ensures
        r@ == unicode_lowercase(s@),
{
    s.to_lowercase()
}

/// `s` with its leading white space removed.
pub open spec fn trim_start(s: Seq<char>) -> Seq<char>
    decreases s.len(),
{
    if s.len() > 0 && is_ws(s[0]) {
        trim_start(s.drop_first())
    } else {
        s
    }
}

/// `s` with its trailing white space removed.
pub open spec fn trim_end(s: Seq<char>) -> Seq<char>
    decreases s.len(),
{
    if s.len() > 0 && is_ws(s.last()) {
        trim_end(s.drop_last())
    } else {
        s
    }
}

/// `trim_start(s)` is the suffix of `s` that starts at its first character
/// that is not white space.
pub proof fn lemma_trim_start_first(s: Seq<char>)
    ensures
        trim_start(s).len() <= s.len(),
        trim_start(s) == s.subrange(s.len() - trim_start(s).len(), s.len() as int),
        forall|j: int| 0 <= j < s.len() - trim_start(s).len() ==> is_ws(#[trigger] s[j]),
        trim_start(s).len() > 0 ==> !is_ws(trim_start(s)[0]),
    decreases s.len(),
{
    if s.len() > 0 && is_ws(s[0]) {
        let d = s.drop_first();
        lemma_trim_start_first(d);
        assert forall|j: int| 1 <= j < s.len() implies #[trigger] s[j] == d[j - 1] by {}
        assert(d.subrange(d.len() - trim_start(s).len(), d.len() as int) =~= s.subrange(
            s.len() - trim_start(s).len(),
            s.len() as int,
        ));
    } else {
        assert(s.subrange(0, s.len() as int) =~= s);
    }
}

/// `s` with white space removed at both ends, as `str::trim` does.
pub open spec fn trim(s: Seq<char>) -> Seq<char> {
    trim_end(trim_start(s))
}

/// The characters of a string slice.
pub fn chars_of(s: &str) -> (v: Vec<char>)
    ensures
        v@ == s@,
{
    broadcast use vstd::string::group_string_axioms;
    let mut v: Vec<char> = Vec::new();
    for c in it: s.chars()
        invariant
            v@ == it.seq().take(it.index() as int),
            it.seq() == s@,
    {
        v.push(c);
        assert(v@ =~= it.seq().take(it.index() + 1));
    }
    assert(v@ =~= s@);
    v
}

/// A string made of the characters of `v`.
pub fn string_of(v: &[char]) -> (s: String)
    ensures
        s@ == v@,
{
    let mut s = String::new();
    let mut i: usize = 0;
    while i < v.len()
        invariant
            i <= v@.len(),
            s@ == v@.subrange(0, i as int),
        decreases v@.len() - i,
    {
        s.push(v[i]);
        i = i + 1;
        assert(s@ =~= v@.subrange(0, i as int));
    }
    assert(v@.subrange(0, v@.len() as int) =~= v@);
    s
}

/// A copy of `v[lo..hi]`.
pub fn slice_copy(v: &[char], lo: usize, hi: usize) -> (r: Vec<char>)
    requires
        lo <= hi <= v@.len(),
    ensures
        r@ == v@.subrange(lo as int, hi as int),
{
    let mut r: Vec<char> = Vec::new();
    let mut i = lo;
    while i < hi
        invariant
            lo <= i <= hi <= v@.len(),
            r@ == v@.subrange(lo as int, i as int),
        decreases hi - i,
    {
        r.push(v[i]);
        i = i + 1;
        assert(r@ =~= v@.subrange(lo as int, i as int));
    }
    r
}

/// Appends the characters of `w` to `v`.
pub fn push_all(v: &mut Vec<char>, w: &[char])
    ensures
        final(v)@ == old(v)@ + w@,
{
    let ghost v0 = v@;
    let mut i: usize = 0;
    while i < w.len()
        invariant
            i <= w@.len(),
            v@ == v0 + w@.subrange(0, i as int),
        decreases w@.len() - i,
    {
        v.push(w[i]);
        i = i + 1;
        assert(v@ =~= v0 + w@.subrange(0, i as int));
    }
    assert(w@.subrange(0, w@.len() as int) =~= w@);
}

/// Dropping leading white space from a suffix that starts with white space.
proof fn lemma_trim_start_step(s: Seq<char>, i: int)
    requires
        0 <= i < s.len(),
        is_ws(s[i]),
    ensures
        trim_start(s.subrange(i, s.len() as int)) == trim_start(s.subrange(i + 1, s.len() as int)),
{
    let t = s.subrange(i, s.len() as int);
    assert(t.drop_first() =~= s.subrange(i + 1, s.len() as int));
}

/// Dropping trailing white space from a prefix that ends with white space.
proof fn lemma_trim_end_step(s: Seq<char>, j: int)
    requires
        0 < j <= s.len(),
        is_ws(s[j - 1]),
    ensures
        trim_end(s.subrange(0, j)) == trim_end(s.subrange(0, j - 1)),
{
    let t = s.subrange(0, j);
    assert(t.drop_last() =~= s.subrange(0, j - 1));
}

/// The bounds `(a, b)` of the trimmed part of `v`: `trim(v) == v[a..b]`.
pub fn trim_bounds(v: &[char]) -> (r: (usize, usize))
    ensures
        r.0 <= r.1 <= v@.len(),
        v@.subrange(r.0 as int, r.1 as int) == trim(v@),
{
    let n = v.len();
    let mut a: usize = 0;
    assert(v@.subrange(0, n as int) =~= v@);
    while a < n && is_whitespace(v[a])
        invariant
            a <= n == v@.len(),
            trim_start(v@.subrange(a as int, n as int)) == trim_start(v@),
        decreases n - a,
    {
        proof {
            lemma_trim_start_step(v@, a as int);
        }
        a = a + 1;
    }
    let ghost ts = v@.subrange(a as int, n as int);
    assert(trim_start(ts) == ts) by {
        if ts.len() > 0 {
            assert(ts[0] == v@[a as int]);
        }
    }
    let mut b: usize = n;
    assert(ts.subrange(0, (b - a) as int) =~= ts);
    while b > a && is_whitespace(v[b - 1])
        invariant
            a <= b <= n == v@.len(),
            ts == v@.subrange(a as int, n as int),
            trim_end(ts.subrange(0, (b - a) as int)) == trim_end(ts),
        decreases b - a,
    {
        proof {
            assert(ts[(b - a - 1) as int] == v@[b - 1]);
            lemma_trim_end_step(ts, (b - a) as int);
        }
        b = b - 1;
    }
    let ghost te = ts.subrange(0, (b - a) as int);
    assert(trim_end(te) == te) by {
        if te.len() > 0 {
            assert(te.last() == v@[b - 1]);
        }
    }
    assert(te =~= v@.subrange(a as int, b as int));
    (a, b)
}

/// A trimmed copy of `v`.
pub fn trimmed(v: &[char]) -> (r: Vec<char>)
    ensures
        r@ == trim(v@),
{
    let (a, b) = trim_bounds(v);
    slice_copy(v, a, b)
}

/// Index of the first `c` in `s` at or after `i`.
pub open spec fn find_from(s: Seq<char>, c: char, i: int) -> Option<int>
    decreases s.len() - i,
{
    if i < 0 || i >= s.len() {
        None
    } else if s[i] == c {
        Some(i)
    } else {
        find_from(s, c, i + 1)
    }
}

/// Index of the first `c` in `s`, as `str::find` with a `char` pattern gives it
/// (counted in characters).
pub open spec fn find(s: Seq<char>, c: char) -> Option<int> {
    find_from(s, c, 0)
}

/// Index of the last `c` in `s`, as `str::rfind` gives it (counted in characters).
pub open spec fn rfind(s: Seq<char>, c: char) -> Option<int>
    decreases s.len(),
{
    if s.len() == 0 {
        None
    } else if s.last() == c {
        Some(s.len() - 1)
    } else {
        rfind(s.drop_last(), c)
    }
}

/// `find_from` is the first match at or after `i`.
pub proof fn lemma_find_from(s: Seq<char>, c: char, i: int, k: Option<int>)
    requires
        0 <= i <= s.len(),
        match k {
            Some(k) => i <= k < s.len() && s[k] == c && forall|j: int| i <= j < k ==> s[j] != c,
            None => forall|j: int| i <= j < s.len() ==> s[j] != c,
        },
    ensures
        find_from(s, c, i) == k,
    decreases s.len() - i,
{
    if i < s.len() {
        if s[i] != c {
            lemma_find_from(s, c, i + 1, k);
        }
    }
}

/// What `find` returns, characterised.
pub proof fn lemma_find(s: Seq<char>, c: char)
    ensures
        match find(s, c) {
            Some(k) => 0 <= k < s.len() && s[k] == c && forall|j: int| 0 <= j < k ==> s[j] != c,
            None => forall|j: int| 0 <= j < s.len() ==> s[j] != c,
        },
{
    lemma_find_from_shape(s, c, 0);
}

proof fn lemma_find_from_shape(s: Seq<char>, c: char, i: int)
    requires
        0 <= i <= s.len(),
    ensures
        match find_from(s, c, i) {
            Some(k) => i <= k < s.len() && s[k] == c && forall|j: int| i <= j < k ==> s[j] != c,
            None => forall|j: int| i <= j < s.len() ==> s[j] != c,
        },
    decreases s.len() - i,
{
    if i < s.len() && s[i] != c {
        lemma_find_from_shape(s, c, i + 1);
    }
}

/// What `rfind` returns, characterised.
pub proof fn lemma_rfind(s: Seq<char>, c: char)
    ensures
        match rfind(s, c) {
            Some(k) => 0 <= k < s.len() && s[k] == c && forall|j: int| k < j < s.len() ==> s[j]
                != c,
            None => forall|j: int| 0 <= j < s.len() ==> s[j] != c,
        },
    decreases s.len(),
{
    if s.len() > 0 && s.last() != c {
        lemma_rfind(s.drop_last(), c);
        assert forall|j: int| 0 <= j < s.len() - 1 implies #[trigger] s[j] == s.drop_last()[j] by {}
    }
}

/// The first `c` in `v[lo..]`, as an index into `v`.
pub fn find_char_from(v: &[char], lo: usize, c: char) -> (r: Option<usize>)
    requires
        lo <= v@.len(),
    ensures
        match r {
            Some(k) => lo <= k < v@.len() && v@[k as int] == c && forall|j: int|
                lo <= j < k ==> v@[j] != c,
            None => forall|j: int| lo <= j < v@.len() ==> v@[j] != c,
        },
{
    let mut i = lo;
    while i < v.len()
        invariant
            lo <= i <= v@.len(),
            forall|j: int| lo <= j < i ==> v@[j] != c,
        decreases v@.len() - i,
    {
        if v[i] == c {
            return Some(i);
        }
        i = i + 1;
    }
    None
}

/// `find(v, c)`.
pub fn find_char(v: &[char], c: char) -> (r: Option<usize>)
    ensures
        match r {
            Some(k) => find(v@, c) == Some(k as int),
            None => find(v@, c) is None,
        },
{
    let r = find_char_from(v, 0, c);
    proof {
        lemma_find_from(v@, c, 0, match r { Some(k) => Some(k as int), None => None });
    }
    r
}

/// `rfind(v, c)`.
pub fn rfind_char(v: &[char], c: char) -> (r: Option<usize>)
    ensures
        match r {
            Some(k) => rfind(v@, c) == Some(k as int),
            None => rfind(v@, c) is None,
        },
{
    let mut i = v.len();
    assert(v@.subrange(0, i as int) =~= v@);
    while i > 0
        invariant
            i <= v@.len(),
            rfind(v@, c) == rfind(v@.subrange(0, i as int), c),
        decreases i,
    {
        let ghost p = v@.subrange(0, i as int);
        if v[i - 1] == c {
            return Some(i - 1);
        }
        assert(p.drop_last() =~= v@.subrange(0, i - 1));
        i = i - 1;
    }
    None
}

/// Whether `s` begins with `p`.
pub open spec fn starts_with(s: Seq<char>, p: Seq<char>) -> bool {
    p.len() <= s.len() && s.subrange(0, p.len() as int) == p
}

/// `starts_with(v, p)`.
pub fn has_prefix(v: &[char], p: &[char]) -> (r: bool)
    ensures
        r == starts_with(v@, p@),
{
    if p.len() > v.len() {
        return false;
    }
    let mut i: usize = 0;
    while i < p.len()
        invariant
            p@.len() <= v@.len(),
            i <= p@.len(),
            forall|j: int| 0 <= j < i ==> v@[j] == p@[j],
        decreases p@.len() - i,
    {
        if v[i] != p[i] {
            assert(v@.subrange(0, p@.len() as int)[i as int] != p@[i as int]);
            return false;
        }
        i = i + 1;
    }
    assert(v@.subrange(0, p@.len() as int) =~= p@);
    true
}

/// Whether two character sequences are equal.
pub fn chars_eq(a: &[char], b: &[char]) -> (r: bool)
    ensures
        r == (a@ == b@),
{
    if a.len() != b.len() {
        return false;
    }
    assert(a@.subrange(0, a@.len() as int) =~= a@);
    has_prefix(a, b)
}

/// The views of a sequence of character vectors.
pub open spec fn views(vv: Seq<Vec<char>>) -> Seq<Seq<char>> {
    vv.map_values(|x: Vec<char>| x@)
}

/// `s` without one trailing `'\r'`, if it has one.
pub open spec fn strip_cr(s: Seq<char>) -> Seq<char> {
    if s.len() > 0 && s.last() == '\r' {
        s.drop_last()
    } else {
        s
    }
}

/// The lines of `s`, as `str::lines` yields them: pieces ended by `'\n'` or
/// `"\r\n"`; the last line ending is optional, and an empty text has no lines.
pub open spec fn lines(s: Seq<char>) -> Seq<Seq<char>>
    decreases s.len(),
{
    if s.len() == 0 {
        Seq::empty()
    } else {
        match find(s, '\n') {
            None => seq![s],
            Some(i) => {
                if 0 <= i < s.len() {
                    seq![strip_cr(s.subrange(0, i))] + lines(s.subrange(i + 1, s.len() as int))
                } else {
                    Seq::empty()
                }
            },
        }
    }
}

/// The lines of `v`.
pub fn lines_of(v: &[char]) -> (r: Vec<Vec<char>>)
    ensures
        views(r@) == lines(v@),
{
    let n = v.len();
    let mut out: Vec<Vec<char>> = Vec::new();
    let mut start: usize = 0;
    assert(v@.subrange(0, n as int) =~= v@);
    while start < n
        invariant
            start <= n == v@.len(),
            views(out@) + lines(v@.subrange(start as int, n as int)) == lines(v@),
        decreases n - start,
    {
        let ghost s = v@.subrange(start as int, n as int);
        let f = find_char_from(v, start, '\n');
        match f {
            None => {
                proof {
                    lemma_find_from(s, '\n', 0, None);
                }
                let piece = slice_copy(v, start, n);
                let ghost before = views(out@);
                out.push(piece);
                proof {
                    assert(lines(s) == seq![s]);
                    assert(views(out@) =~= before + seq![s]);
                }
                assert(v@.subrange(n as int, n as int).len() == 0);
                start = n;
                assert(views(out@) + lines(v@.subrange(start as int, n as int)) =~= lines(v@));
            },
            Some(i) => {
                proof {
                    lemma_find_from(s, '\n', 0, Some(i - start));
                }
                let end = if i > start && v[i - 1] == '\r' {
                    i - 1
                } else {
                    i
                };
                let piece = slice_copy(v, start, end);
                let ghost before = views(out@);
                out.push(piece);
                proof {
                    assert(strip_cr(s.subrange(0, i - start)) =~= piece@);
                    assert(s.subrange(i - start + 1, s.len() as int) =~= v@.subrange(
                        i + 1,
                        n as int,
                    ));
                    assert(views(out@) =~= before + seq![piece@]);
                }
                start = i + 1;
            },
        }
    }
    assert(views(out@) =~= lines(v@));
    out
}

/// The pieces of `s` between occurrences of `c`, as `str::split` with a `char`
/// pattern yields them (an empty text gives one empty piece).
pub open spec fn split(s: Seq<char>, c: char) -> Seq<Seq<char>>
    decreases s.len(),
{
    match find(s, c) {
        Some(i) => {
            if 0 <= i < s.len() {
                seq![s.subrange(0, i)] + split(s.subrange(i + 1, s.len() as int), c)
            } else {
                seq![s]
            }
        },
        None => seq![s],
    }
}

/// The pieces of `v` between occurrences of `c`.
pub fn split_chars(v: &[char], c: char) -> (r: Vec<Vec<char>>)
    ensures
        views(r@) == split(v@, c),
{
    let n = v.len();
    let mut out: Vec<Vec<char>> = Vec::new();
    let mut start: usize = 0;
    assert(v@.subrange(0, n as int) =~= v@);
    loop
        invariant
            start <= n == v@.len(),
            views(out@) + split(v@.subrange(start as int, n as int), c) == split(v@, c),
        decreases n - start,
    {
        let ghost s = v@.subrange(start as int, n as int);
        let f = find_char_from(v, start, c);
        let ghost before = views(out@);
        match f {
            None => {
                proof {
                    lemma_find_from(s, c, 0, None);
                }
                let piece = slice_copy(v, start, n);
                out.push(piece);
                assert(views(out@) =~= before + seq![s]);
                assert(views(out@) =~= split(v@, c));
                return out;
            },
            Some(i) => {
                proof {
                    lemma_find_from(s, c, 0, Some(i - start));
                }
                let piece = slice_copy(v, start, i);
                out.push(piece);
                proof {
                    assert(s.subrange(0, i - start) =~= piece@);
                    assert(s.subrange(i - start + 1, s.len() as int) =~= v@.subrange(
                        i + 1,
                        n as int,
                    ));
                    assert(views(out@) =~= before + seq![piece@]);
                }
                start = i + 1;
            },
        }
    }
}

/// The parts joined with `sep` between neighbours, as `[T]::join` does.
pub open spec fn join(parts: Seq<Seq<char>>, sep: Seq<char>) -> Seq<char>
    decreases parts.len(),
{
    if parts.len() == 0 {
        Seq::empty()
    } else if parts.len() == 1 {
        parts[0]
    } else {
        join(parts.drop_last(), sep) + sep + parts.last()
    }
}

/// `join(parts, sep)`.
pub fn join_chars(parts: &Vec<Vec<char>>, sep: &[char]) -> (r: Vec<char>)
    ensures
        r@ == join(views(parts@), sep@),
{
    let mut r: Vec<char> = Vec::new();
    let mut i: usize = 0;
    while i < parts.len()
        invariant
            i <= parts@.len(),
            r@ == join(views(parts@).take(i as int), sep@),
        decreases parts@.len() - i,
    {
        let ghost pre = views(parts@).take(i as int);
        let ghost post = views(parts@).take(i + 1);
        if i > 0 {
            push_all(&mut r, sep);
        }
        push_all(&mut r, &parts[i]);
        proof {
            assert(post.drop_last() =~= pre);
            assert(post.last() == parts@[i as int]@);
            if i == 0 {
                assert(r@ =~= join(post, sep@));
            }
        }
        i = i + 1;
    }
    assert(views(parts@).take(parts@.len() as int) =~= views(parts@));
    r
}

/// The decimal digit character for `d < 10`.
pub open spec fn digit_char(d: nat) -> char {
    ((48 + d) as u8) as char
}

/// The decimal representation of `n`, without leading zeros.
pub open spec fn decimal(n: nat) -> Seq<char>
    decreases n,
{
    if n < 10 {
        seq![digit_char(n)]
    } else {
        decimal(n / 10).push(digit_char(n % 10))
    }
}

/// The decimal digits of `n`.
pub fn decimal_chars(n: u64) -> (r: Vec<char>)
    ensures
        r@ == decimal(n as nat),
    decreases n,
{
    let d = (n % 10) as u8;
    let c = (48u8 + d) as char;
    if n < 10 {
        let r = vec![c];
        assert(r@ =~= decimal(n as nat));
        r
    } else {
        let mut r = decimal_chars(n / 10);
        r.push(c);
        r
    }
}

/// The decimal text of `n`, as its `Display` renders it.
pub fn decimal_string(n: u64) -> (r: String)
    ensures
        r@ == decimal(n as nat),
{
    string_of(&decimal_chars(n))
}

} // verus!
