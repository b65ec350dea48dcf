//! The encoding declaration of an emitted source. Sources are emitted as
//! UTF-8, so a PEP 263 declaration in the first two lines that names
//! another encoding is rewritten to name `utf-8`.
use vstd::prelude::*;
use crate::text::{ascii_lower, ascii_lower_seq, first_from, from_chars, push_all, replace_char, to_chars, to_ascii_lower};

verus! {

broadcast use vstd::string::group_string_axioms;

/// Index predicate: `s[k]` is `c`.
pub open spec fn char_is(s: Seq<char>, c: char) -> spec_fn(int) -> bool {
    |k: int| s[k] == c
}

/// Space or tab.
pub open spec fn blank_char(c: char) -> bool {
    c == ' ' || c == '\t'
}

/// A character that may appear in an encoding name (in any ASCII case).
pub open spec fn name_char(c: char) -> bool {
    let l = ascii_lower(c);
    ('a' <= l && l <= 'z') || ('0' <= l && l <= '9') || l == '-' || l == '_' || l == '.'
}

/// Index predicate: `s[k]` is not a blank.
pub open spec fn not_blank_char_at(s: Seq<char>) -> spec_fn(int) -> bool {
    |k: int| !blank_char(s[k])
}

/// Index predicate: `s[k]` cannot be in an encoding name.
pub open spec fn not_name_char_at(s: Seq<char>) -> spec_fn(int) -> bool {
    |k: int| !name_char(s[k])
}

/// Index predicate: `s[k]` is not indentation (space, tab, form feed).
pub open spec fn not_indent_char_at(s: Seq<char>) -> spec_fn(int) -> bool {
    |k: int| !(s[k] == ' ' || s[k] == '\t' || s[k] == '\u{c}')
}

/// Whether the word `coding` (in any ASCII case) starts at index `k`.
pub open spec fn coding_char_at(s: Seq<char>, k: int) -> bool {
    &&& ascii_lower(s[k]) == 'c'
    &&& ascii_lower(s[k + 1]) == 'o'
    &&& ascii_lower(s[k + 2]) == 'd'
    &&& ascii_lower(s[k + 3]) == 'i'
    &&& ascii_lower(s[k + 4]) == 'n'
    &&& ascii_lower(s[k + 5]) == 'g'
}

/// Index predicate: the word `coding` starts at `k`.
pub open spec fn coding_char_pred(s: Seq<char>) -> spec_fn(int) -> bool {
    |k: int| coding_char_at(s, k)
}

/// The first index at or after `i` where `p` holds, or the end.
pub open spec fn skip_until(s: Seq<char>, i: int, p: spec_fn(int) -> bool) -> int {
    match first_from(s.len() as int, i, p) {
        Some(j) => j,
        None => if i <= s.len() {
            s.len() as int
        } else {
            i
        },
    }
}

/// Where the comment of a line starts when the line is a comment: the `#`
/// that only spaces, tabs and form feeds precede.
pub open spec fn comment_mark(line: Seq<char>) -> Option<int> {
    match first_from(line.len() as int, 0, not_indent_char_at(line)) {
        Some(h) => if line[h] == '#' {
            Some(h)
        } else {
            None
        },
        None => None,
    }
}

/// Where the encoding name of a PEP 263 declaration in one line lies: the
/// line is a comment, and in it come the word `coding`, optional blanks, `:` or `=`, optional
/// blanks, then a name of letters, digits, `-`, `_` and `.`.
pub open spec fn cookie_span(line: Seq<char>) -> Option<(int, int)> {
    match comment_mark(line) {
        None => None,
        Some(h) => match first_from(line.len() - 5, h, coding_char_pred(line)) {
            None => None,
            Some(p) => {
                let i1 = skip_until(line, p + 6, not_blank_char_at(line));
                if i1 < line.len() && (line[i1] == ':' || line[i1] == '=') {
                    let start = skip_until(line, i1 + 1, not_blank_char_at(line));
                    let end = skip_until(line, start, not_name_char_at(line));
                    if start == end {
                        None
                    } else {
                        Some((start, end))
                    }
                } else {
                    None
                }
            },
        },
    }
}

/// Where the first line of `s` ends: its first newline, or the end.
pub open spec fn line_end(s: Seq<char>) -> int {
    match first_from(s.len() as int, 0, char_is(s, '\n')) {
        Some(i) => i,
        None => s.len() as int,
    }
}

/// Where the encoding name declared in the first two lines of a source
/// lies; the second line counts only when the first is blank or a comment.
pub open spec fn declaration_span(s: Seq<char>) -> Option<(int, int)> {
    let e1 = line_end(s);
    let l1 = s.take(e1);
    match cookie_span(l1) {
        Some(sp) => Some(sp),
        None => {
            let cb = match first_from(l1.len() as int, 0, not_indent_char_at(l1)) {
                None => true,
                Some(k) => l1[k] == '#' || l1[k] == '\r',
            };
            if !cb || e1 == s.len() {
                None
            } else {
                let rest = s.skip(e1 + 1);
                match cookie_span(rest.take(line_end(rest))) {
                    Some((a, b)) => Some((a + e1 + 1, b + e1 + 1)),
                    None => None,
                }
            }
        },
    }
}

/// Whether an encoding name names UTF-8 (`utf-8`, `utf8`, `utf-8-sig`, in
/// any ASCII case and with `_` for `-`).
pub open spec fn names_utf8(name: Seq<char>) -> bool {
    let n = replace_char(ascii_lower_seq(name), '_', '-');
    n == "utf-8"@ || n == "utf8"@ || n == "utf-8-sig"@
}

/// The source with a declaration of another encoding than UTF-8 rewritten
/// to declare `utf-8`.
pub open spec fn with_utf8_declaration(s: Seq<char>) -> Seq<char> {
    match declaration_span(s) {
        Some((a, b)) => if names_utf8(s.subrange(a, b)) {
            s
        } else {
            s.take(a) + "utf-8"@ + s.skip(b)
        },
        None => s,
    }
}

/// What `first_from` finds: the first index from `i` where `p` holds.
pub(crate) proof fn lemma_first_found(n: int, i: int, p: spec_fn(int) -> bool)
    ensures
        first_from(n, i, p) matches Some(j) ==> i <= j < n && p(j) && forall|k: int|
            i <= k < j ==> !#[trigger] p(k),
        first_from(n, i, p) is None ==> forall|k: int| i <= k < n ==> !#[trigger] p(k),
    decreases n - i,
{
    if i < n && !p(i) {
        lemma_first_found(n, i + 1, p);
    }
}

/// An index where `p` first holds from `i` is what `first_from` finds.
pub(crate) proof fn lemma_first_is(n: int, i: int, p: spec_fn(int) -> bool, j: int)
    requires
        i <= j < n,
        p(j),
        forall|k: int| i <= k < j ==> !#[trigger] p(k),
    ensures
        first_from(n, i, p) == Some(j),
    decreases j - i,
{
    if i < j {
        lemma_first_is(n, i + 1, p, j);
    }
}

/// When `p` holds nowhere from `i`, `first_from` finds nothing.
pub(crate) proof fn lemma_first_none(n: int, i: int, p: spec_fn(int) -> bool)
    requires
        forall|k: int| i <= k < n ==> !#[trigger] p(k),
    ensures
        first_from(n, i, p) is None,
    decreases n - i,
{
    if i < n {
        lemma_first_none(n, i + 1, p);
    }
}

/// `line` with the characters `a..b` replaced by `utf-8`.
pub open spec fn replaced(line: Seq<char>, a: int, b: int) -> Seq<char> {
    line.take(a) + "utf-8"@ + line.skip(b)
}

proof fn lemma_utf8_chars()
    ensures
        "utf-8"@.len() == 5,
        "utf-8"@[0] == 'u',
        "utf-8"@[1] == 't',
        "utf-8"@[2] == 'f',
        "utf-8"@[3] == '-',
        "utf-8"@[4] == '8',
        forall|k: int| 0 <= k < 5 ==> name_char(#[trigger] "utf-8"@[k]) && "utf-8"@[k] != '\n'
            && !blank_char("utf-8"@[k]),
{
    reveal_strlit("utf-8");
}

/// The span of a declaration lies within its line, after its `:` or `=`,
/// with no name character right after it.
proof fn lemma_cookie_shape(line: Seq<char>)
    requires
        cookie_span(line) is Some,
    ensures
        ({
            let (a, b) = cookie_span(line)->0;
            &&& 1 <= a < b <= line.len()
            &&& (b < line.len() ==> !name_char(line[b]))
            &&& forall|k: int| a <= k < b ==> name_char(line[k])
        }),
{
    let n = line.len() as int;
    let h = comment_mark(line)->0;
    lemma_first_found(n, 0, not_indent_char_at(line));
    let p = first_from(n - 5, h, coding_char_pred(line))->0;
    lemma_first_found(n - 5, h, coding_char_pred(line));
    let i1 = skip_until(line, p + 6, not_blank_char_at(line));
    lemma_first_found(n, p + 6, not_blank_char_at(line));
    let start = skip_until(line, i1 + 1, not_blank_char_at(line));
    lemma_first_found(n, i1 + 1, not_blank_char_at(line));
    let end = skip_until(line, start, not_name_char_at(line));
    lemma_first_found(n, start, not_name_char_at(line));
    assert forall|k: int| start <= k < end implies name_char(line[k]) by {
        assert(!not_name_char_at(line)(k));
    }
    if end < n {
        assert(not_name_char_at(line)(end));
    }
}

/// Rewriting the name of a declaration leaves a declaration of `utf-8`
/// at the same place.
proof fn lemma_cookie_replaced(line: Seq<char>)
    requires
        cookie_span(line) is Some,
    ensures
        ({
            let (a, b) = cookie_span(line)->0;
            cookie_span(replaced(line, a, b)) == Some((a, a + 5))
        }),
{
    lemma_utf8_chars();
    lemma_cookie_shape(line);
    let (a, b) = cookie_span(line)->0;
    let t = replaced(line, a, b);
    let n = line.len() as int;
    let m = t.len() as int;
    assert(m == n - (b - a) + 5);
    assert forall|k: int| 0 <= k < a implies #[trigger] t[k] == line[k] by {}
    assert forall|k: int| 0 <= k < 5 implies #[trigger] t[a + k] == "utf-8"@[k] by {}
    assert forall|k: int| b <= k < n implies #[trigger] t[k - b + a + 5] == line[k] by {}
    let h = comment_mark(line)->0;
    lemma_first_found(n, 0, not_indent_char_at(line));
    let p = first_from(n - 5, h, coding_char_pred(line))->0;
    lemma_first_found(n - 5, h, coding_char_pred(line));
    let i1 = skip_until(line, p + 6, not_blank_char_at(line));
    lemma_first_found(n, p + 6, not_blank_char_at(line));
    let start = skip_until(line, i1 + 1, not_blank_char_at(line));
    lemma_first_found(n, i1 + 1, not_blank_char_at(line));
    lemma_first_found(n, start, not_name_char_at(line));
    assert(start == a);
    // The comment mark and the word `coding` are found where they were.
    assert forall|k: int| 0 <= k < h implies !#[trigger] not_indent_char_at(t)(k) by {
        assert(!not_indent_char_at(line)(k));
    }
    assert(not_indent_char_at(line)(h));
    assert(not_indent_char_at(t)(h));
    lemma_first_is(m, 0, not_indent_char_at(t), h);
    assert(comment_mark(t) == Some(h));
    assert forall|k: int| h <= k < p implies !#[trigger] coding_char_pred(t)(k) by {
        assert(!coding_char_pred(line)(k));
        assert(t[k] == line[k] && t[k + 1] == line[k + 1] && t[k + 2] == line[k + 2]);
        assert(t[k + 3] == line[k + 3] && t[k + 4] == line[k + 4] && t[k + 5] == line[k + 5]);
    }
    assert(coding_char_pred(t)(p)) by {
        assert(coding_char_pred(line)(p));
        assert(t[p] == line[p] && t[p + 1] == line[p + 1] && t[p + 2] == line[p + 2]);
        assert(t[p + 3] == line[p + 3] && t[p + 4] == line[p + 4] && t[p + 5] == line[p + 5]);
    }
    lemma_first_is(m - 5, h, coding_char_pred(t), p);
    // The blanks before `:` or `=` and after it are unchanged.
    assert forall|k: int| p + 6 <= k < i1 implies !#[trigger] not_blank_char_at(t)(k) by {
        assert(!not_blank_char_at(line)(k));
    }
    assert(not_blank_char_at(t)(i1)) by {
        assert(not_blank_char_at(line)(i1));
    }
    lemma_first_is(m, p + 6, not_blank_char_at(t), i1);
    assert forall|k: int| i1 + 1 <= k < a implies !#[trigger] not_blank_char_at(t)(k) by {
        assert(!not_blank_char_at(line)(k));
    }
    assert(not_blank_char_at(t)(a)) by {
        assert(t[a] == "utf-8"@[0]);
    }
    lemma_first_is(m, i1 + 1, not_blank_char_at(t), a);
    // The new name is `utf-8`, followed by what followed the old one.
    assert forall|k: int| a <= k < a + 5 implies !#[trigger] not_name_char_at(t)(k) by {
        assert(t[k] == "utf-8"@[k - a]);
    }
    if b < n {
        assert(not_name_char_at(t)(a + 5)) by {
            assert(t[b - b + a + 5] == line[b]);
            assert(!name_char(line[b]));
        }
        lemma_first_is(m, a, not_name_char_at(t), a + 5);
    } else {
        lemma_first_none(m, a, not_name_char_at(t));
    }
}

/// Rewriting the name declared in the first line of `x` keeps the line
/// break where it was, shifted by the change in length, and the new first
/// line is the old one rewritten.
proof fn lemma_line_replaced(x: Seq<char>)
    requires
        cookie_span(x.take(line_end(x))) is Some,
    ensures
        ({
            let e = line_end(x);
            let (a, b) = cookie_span(x.take(e))->0;
            let y = replaced(x, a, b);
            &&& 1 <= a < b <= e <= x.len()
            &&& line_end(y) == e - b + a + 5
            &&& y.take(line_end(y)) == replaced(x.take(e), a, b)
        }),
{
    lemma_utf8_chars();
    let n = x.len() as int;
    lemma_first_found(n, 0, char_is(x, '\n'));
    let e = line_end(x);
    let l = x.take(e);
    lemma_cookie_shape(l);
    let (a, b) = cookie_span(l)->0;
    let y = replaced(x, a, b);
    let m = y.len() as int;
    let e2 = e - b + a + 5;
    assert(m == n - b + a + 5);
    assert forall|k: int| 0 <= k < e2 implies !#[trigger] char_is(y, '\n')(k) by {
        if k < a {
            assert(y[k] == x[k]);
            assert(!char_is(x, '\n')(k));
        } else if k < a + 5 {
            assert(y[k] == "utf-8"@[k - a]);
        } else {
            assert(y[k] == x[k - a - 5 + b]);
            assert(!char_is(x, '\n')(k - a - 5 + b));
        }
    }
    if e < n {
        assert(char_is(x, '\n')(e));
        assert(y[e2] == x[e]);
        lemma_first_is(m, 0, char_is(y, '\n'), e2);
    } else {
        lemma_first_none(m, 0, char_is(y, '\n'));
    }
    assert(y.take(e2) =~= replaced(l, a, b));
}

/// After the rewrite, the first two lines declare `utf-8`, or declare nothing.
pub proof fn lemma_declaration_names_utf8(s: Seq<char>)
    ensures
        ({
            let w = with_utf8_declaration(s);
            match declaration_span(w) {
                Some((x, y)) => names_utf8(w.subrange(x, y)),
                None => true,
            }
        }),
{
    match declaration_span(s) {
        None => {},
        Some((a, b)) => {
            if !names_utf8(s.subrange(a, b)) {
                lemma_utf8_chars();
                let w = with_utf8_declaration(s);
                assert(w == replaced(s, a, b));
                let e1 = line_end(s);
                let l1 = s.take(e1);
                if cookie_span(l1) is Some {
                    lemma_line_replaced(s);
                    lemma_cookie_replaced(l1);
                    assert(declaration_span(w) == Some((a, a + 5)));
                } else {
                    let rest = s.skip(e1 + 1);
                    let e2 = line_end(rest);
                    let (a2, b2) = cookie_span(rest.take(e2))->0;
                    lemma_line_replaced(rest);
                    lemma_cookie_replaced(rest.take(e2));
                    lemma_first_found(s.len() as int, 0, char_is(s, '\n'));
                    assert(a == a2 + e1 + 1 && b == b2 + e1 + 1);
                    assert forall|k: int| 0 <= k < e1 implies !#[trigger] char_is(w, '\n')(k) by {
                        assert(w[k] == s[k]);
                        assert(!char_is(s, '\n')(k));
                    }
                    assert(w[e1] == s[e1]);
                    assert(char_is(s, '\n')(e1));
                    lemma_first_is(w.len() as int, 0, char_is(w, '\n'), e1);
                    assert(w.take(e1) =~= l1);
                    assert(w.skip(e1 + 1) =~= replaced(rest, a2, b2));
                    assert(declaration_span(w) == Some((a, a + 5)));
                }
                assert(w.subrange(a, a + 5) =~= "utf-8"@);
                reveal_strlit("utf-8");
                assert(replace_char(ascii_lower_seq("utf-8"@), '_', '-') =~= "utf-8"@);
            }
        },
    }
}

/// The first index at or after `i` holding `c`, or the end.
fn find_char_from(s: &[char], i: usize, c: char) -> (r: usize)
    requires
        i <= s@.len(),
    ensures
        i <= r <= s@.len(),
        first_from(s@.len() as int, i as int, char_is(s@, c)) == (if r < s@.len() {
            Some(r as int)
        } else {
            None
        }),
{
    let mut j = i;
    while j < s.len() && s[j] != c
        invariant
            i <= j <= s@.len(),
            first_from(s@.len() as int, i as int, char_is(s@, c)) == first_from(
                s@.len() as int,
                j as int,
                char_is(s@, c),
            ),
        decreases s@.len() - j,
    {
        j += 1;
    }
    j
}

fn skip_blank_chars(s: &[char], i: usize) -> (r: usize)
    requires
        i <= s@.len(),
    ensures
        r == skip_until(s@, i as int, not_blank_char_at(s@)),
        i <= r <= s@.len(),
{
    let mut j = i;
    while j < s.len() && (s[j] == ' ' || s[j] == '\t')
        invariant
            i <= j <= s@.len(),
            first_from(s@.len() as int, i as int, not_blank_char_at(s@)) == first_from(
                s@.len() as int,
                j as int,
                not_blank_char_at(s@),
            ),
        decreases s@.len() - j,
    {
        j += 1;
    }
    j
}

fn is_name_char(c: char) -> (r: bool)
    ensures
        r == name_char(c),
{
    let l = to_ascii_lower(c);
    ('a' <= l && l <= 'z') || ('0' <= l && l <= '9') || l == '-' || l == '_' || l == '.'
}

fn skip_name_chars(s: &[char], i: usize) -> (r: usize)
    requires
        i <= s@.len(),
    ensures
        r == skip_until(s@, i as int, not_name_char_at(s@)),
        i <= r <= s@.len(),
{
    let mut j = i;
    while j < s.len() && is_name_char(s[j])
        invariant
            i <= j <= s@.len(),
            first_from(s@.len() as int, i as int, not_name_char_at(s@)) == first_from(
                s@.len() as int,
                j as int,
                not_name_char_at(s@),
            ),
        decreases s@.len() - j,
    {
        j += 1;
    }
    j
}

/// The characters `a..b` of `s`.
fn copy_range(s: &[char], a: usize, b: usize) -> (r: Vec<char>)
    requires
        a <= b <= s@.len(),
    ensures
        r@ == s@.subrange(a as int, b as int),
{
    let mut out: Vec<char> = Vec::new();
    let mut k = a;
    while k < b
        invariant
            a <= k <= b <= s@.len(),
            out@ == s@.subrange(a as int, k as int),
        decreases b - k,
    {
        out.push(s[k]);
        k += 1;
        assert(out@ =~= s@.subrange(a as int, k as int));
    }
    out
}

fn coding_at_exec(s: &[char], k: usize) -> (r: bool)
    requires
        k + 6 <= s@.len(),
    ensures
        r == coding_char_at(s@, k as int),
{
    to_ascii_lower(s[k]) == 'c' && to_ascii_lower(s[k + 1]) == 'o' && to_ascii_lower(s[k + 2]) == 'd'
        && to_ascii_lower(s[k + 3]) == 'i' && to_ascii_lower(s[k + 4]) == 'n' && to_ascii_lower(
        s[k + 5],
    ) == 'g'
}

/// Where the encoding name of a declaration in `line` lies.
fn cookie_span_exec(line: &[char]) -> (r: Option<(usize, usize)>)
    ensures
        match r {
            Some((a, b)) => cookie_span(line@) == Some((a as int, b as int)) && a <= b <= line@.len(),
            None => cookie_span(line@) is None,
        },
{
    let n = line.len();
    let mut h: usize = 0;
    while h < n && (line[h] == ' ' || line[h] == '\t' || line[h] == '\u{c}')
        invariant
            n == line@.len(),
            h <= n,
            first_from(n as int, 0, not_indent_char_at(line@)) == first_from(
                n as int,
                h as int,
                not_indent_char_at(line@),
            ),
        decreases n - h,
    {
        h += 1;
    }
    if h == n || line[h] != '#' {
        return None;
    }
    let mut p = h;
    let ghost pred = coding_char_pred(line@);
    while n >= 6 && p <= n - 6 && !coding_at_exec(line, p)
        invariant
            n == line@.len(),
            h <= p <= n,
            first_from(n - 5, h as int, pred) == first_from(n - 5, p as int, pred),
            pred == coding_char_pred(line@),
        decreases n - p,
    {
        p += 1;
    }
    if n < 6 || p > n - 6 {
        return None;
    }
    assert(first_from(n - 5, h as int, pred) == Some(p as int));
    let i1 = skip_blank_chars(line, p + 6);
    if !(i1 < n && (line[i1] == ':' || line[i1] == '=')) {
        return None;
    }
    let start = skip_blank_chars(line, i1 + 1);
    let end = skip_name_chars(line, start);
    if start == end {
        return None;
    }
    Some((start, end))
}

/// Where the encoding name declared in the first two lines lies.
fn declaration_span_exec(s: &[char]) -> (r: Option<(usize, usize)>)
    ensures
        match r {
            Some((a, b)) => declaration_span(s@) == Some((a as int, b as int)) && a <= b <= s@.len(),
            None => declaration_span(s@) is None,
        },
{
    let e1 = find_char_from(s, 0, '\n');
    let l1 = copy_range(s, 0, e1);
    assert(l1@ =~= s@.take(e1 as int));
    match cookie_span_exec(l1.as_slice()) {
        Some(sp) => {
            return Some(sp);
        },
        None => {},
    }
    let mut k: usize = 0;
    while k < l1.len() && (l1[k] == ' ' || l1[k] == '\t' || l1[k] == '\u{c}')
        invariant
            k <= l1@.len(),
            first_from(l1@.len() as int, 0, not_indent_char_at(l1@)) == first_from(
                l1@.len() as int,
                k as int,
                not_indent_char_at(l1@),
            ),
        decreases l1@.len() - k,
    {
        k += 1;
    }
    let cb = k == l1.len() || l1[k] == '#' || l1[k] == '\r';
    if !cb || e1 == s.len() {
        return None;
    }
    let rest = copy_range(s, e1 + 1, s.len());
    assert(rest@ =~= s@.skip(e1 + 1));
    let e2 = find_char_from(rest.as_slice(), 0, '\n');
    let l2 = copy_range(rest.as_slice(), 0, e2);
    assert(l2@ =~= rest@.take(e2 as int));
    match cookie_span_exec(l2.as_slice()) {
        Some((a, b)) => Some((a + e1 + 1, b + e1 + 1)),
        None => None,
    }
}

/// Whether a name names UTF-8 (see `names_utf8`).
fn names_utf8_exec(name: &[char]) -> (r: bool)
    ensures
        r == names_utf8(name@),
{
    let mut n: Vec<char> = Vec::new();
    let mut i: usize = 0;
    while i < name.len()
        invariant
            i <= name@.len(),
            n@ == replace_char(ascii_lower_seq(name@.take(i as int)), '_', '-'),
        decreases name@.len() - i,
    {
        let l = to_ascii_lower(name[i]);
        n.push(if l == '_' {
            '-'
        } else {
            l
        });
        i += 1;
        assert(n@ =~= replace_char(ascii_lower_seq(name@.take(i as int)), '_', '-'));
    }
    assert(name@.take(name@.len() as int) =~= name@);
    crate::text::chars_eq_str(n.as_slice(), "utf-8") || crate::text::chars_eq_str(n.as_slice(), "utf8")
        || crate::text::chars_eq_str(n.as_slice(), "utf-8-sig")
}

/// The source with a PEP 263 declaration of another encoding than UTF-8
/// rewritten to declare `utf-8` (see `with_utf8_declaration`).
pub fn normalize_encoding_declaration(source: &str) -> (r: String)
    ensures
        r@ == with_utf8_declaration(source@),
{
    let s = to_chars(source);
    match declaration_span_exec(s.as_slice()) {
        None => from_chars(s.as_slice()),
        Some((a, b)) => {
            let name = copy_range(s.as_slice(), a, b);
            if names_utf8_exec(name.as_slice()) {
                return from_chars(s.as_slice());
            }
            let mut out = copy_range(s.as_slice(), 0, a);
            crate::text::push_str(&mut out, "utf-8");
            let tail = copy_range(s.as_slice(), b, s.len());
            push_all(&mut out, tail.as_slice());
            assert(tail@ =~= s@.skip(b as int));
            assert(out@ =~= s@.take(a as int) + "utf-8"@ + s@.skip(b as int));
            from_chars(out.as_slice())
        },
    }
}

} // verus!
