//! How a module's source is laid out inside the bundle: every line is
//! indented by one tab, so that it can stand in an `if` block, except a
//! line that begins inside a string (whose text must not change); lines
//! that start with a `from __future__ import` statement are taken out, to
//! be hoisted to the top of the bundle.
//!
//! Strings are found from Ruff's tokens: a line begins inside a string
//! when its first character lies strictly inside a string token, or inside
//! an f-string or t-string taken whole.
use vstd::prelude::*;
use crate::tokens::{MAX_SOURCE_CHARS, Token, TokenClass, tokens, tokens_of, tokens_view};

verus! {

/// The scan of tokens for string spans: the depth of f-string and t-string
/// nesting, where the outermost one opened, and the spans found.
pub type SpanScan = (int, int, Seq<(int, int)>);

/// The scan after the first `k` tokens: a string token is a span, and an
/// f-string or t-string is one span from its start to its matching end.
pub open spec fn span_scan(t: Seq<(TokenClass, int, int)>, k: nat) -> SpanScan
    decreases k,
{
    if k == 0 || k > t.len() {
        (0, 0, Seq::<(int, int)>::empty())
    } else {
        let (d, o, sp) = span_scan(t, (k - 1) as nat);
        let (c, a, b) = t[k - 1];
        if c == TokenClass::String {
            (d, o, sp.push((a, b)))
        } else if c == TokenClass::FStringStart || c == TokenClass::TStringStart {
            (d + 1, if d == 0 {
                a
            } else {
                o
            }, sp)
        } else if c == TokenClass::FStringEnd || c == TokenClass::TStringEnd {
            if d == 1 {
                (0, o, sp.push((o, b)))
            } else if d > 1 {
                (d - 1, o, sp)
            } else {
                (d, o, sp)
            }
        } else {
            (d, o, sp)
        }
    }
}

/// The string spans of a source, from Ruff's tokens (none for a text too
/// long to tokenize).
pub open spec fn string_spans(s: Seq<char>) -> Seq<(int, int)> {
    if s.len() <= MAX_SOURCE_CHARS {
        span_scan(tokens_of(s), tokens_of(s).len()).2
    } else {
        Seq::<(int, int)>::empty()
    }
}

/// Whether position `i` lies strictly inside one of the spans.
pub open spec fn inside(spans: Seq<(int, int)>, i: int) -> bool {
    exists|k: int| 0 <= k < spans.len() && (#[trigger] spans[k]).0 < i < spans[k].1
}

/// Whether position `i` of `s` lies inside a string.
pub open spec fn in_string(s: Seq<char>, i: int) -> bool {
    inside(string_spans(s), i)
}

/// Whether position `i` of `s` begins a line.
pub open spec fn line_start(s: Seq<char>, i: int) -> bool {
    i == 0 || s[i - 1] == '\n'
}

/// Where the line holding position `i` begins.
pub open spec fn line_begin(s: Seq<char>, i: nat) -> nat
    decreases i,
{
    if i == 0 || s[i - 1] == '\n' {
        i
    } else {
        line_begin(s, (i - 1) as nat)
    }
}

/// Whether a `from __future__ import` statement starts at `i`.
pub open spec fn future_at(s: Seq<char>, i: int) -> bool {
    0 <= i && i + 22 <= s.len() && s.subrange(i, i + 22) == "from __future__ import"@
}

/// Whether position `i` lies in a line that begins, outside any string,
/// with a `from __future__ import` statement.
pub open spec fn in_future_line(s: Seq<char>, i: nat) -> bool {
    let b = line_begin(s, i);
    !in_string(s, b as int) && future_at(s, b as int)
}

/// What character `i` contributes to the hoisted lines.
pub open spec fn future_piece(s: Seq<char>, i: nat) -> Seq<char> {
    if in_future_line(s, i) {
        seq![s[i as int]]
    } else {
        Seq::<char>::empty()
    }
}

/// What character `i` contributes to the indented body: nothing in a
/// hoisted line; otherwise the character, after a tab when it begins a
/// line outside any string.
pub open spec fn body_piece(s: Seq<char>, i: nat) -> Seq<char> {
    if in_future_line(s, i) {
        Seq::<char>::empty()
    } else if line_start(s, i as int) && !in_string(s, i as int) {
        seq!['\t', s[i as int]]
    } else {
        seq![s[i as int]]
    }
}

/// The hoisted lines of the first `n` characters.
pub open spec fn futures_upto(s: Seq<char>, n: nat) -> Seq<char>
    decreases n,
{
    if n == 0 {
        Seq::<char>::empty()
    } else {
        futures_upto(s, (n - 1) as nat) + future_piece(s, (n - 1) as nat)
    }
}

/// The indented body of the first `n` characters.
pub open spec fn body_upto(s: Seq<char>, n: nat) -> Seq<char>
    decreases n,
{
    if n == 0 {
        Seq::<char>::empty()
    } else {
        body_upto(s, (n - 1) as nat) + body_piece(s, (n - 1) as nat)
    }
}

/// The `from __future__ import` lines of a source.
pub open spec fn future_lines(s: Seq<char>) -> Seq<char> {
    futures_upto(s, s.len())
}

/// A source laid out as the body of an `if` block: indented, without its
/// `from __future__ import` lines, ending with a line break and a `pass`
/// so that the block is never empty.
pub open spec fn block_body(s: Seq<char>) -> Seq<char> {
    let b = body_upto(s, s.len());
    let ended = if b.len() > 0 && b.last() != '\n' {
        b.push('\n')
    } else {
        b
    };
    ended + "\tpass\n"@
}

/// The string spans found among tokens (see `span_scan`).
fn spans_exec(t: &[Token]) -> (r: Vec<(usize, usize)>)
    ensures
        r@.len() == span_scan(tokens_view(t@), t@.len()).2.len(),
        forall|k: int| 0 <= k < r@.len() ==> ((#[trigger] r@[k]).0 as int, r@[k].1 as int) == span_scan(tokens_view(t@), t@.len()).2[k],
{
    let ghost tv = tokens_view(t@);
    let mut out: Vec<(usize, usize)> = Vec::new();
    let mut depth: usize = 0;
    let mut open: usize = 0;
    let mut k: usize = 0;
    while k < t.len()
        invariant
            k <= t@.len(),
            tv == tokens_view(t@),
            depth <= k,
            span_scan(tv, k as nat).0 == depth as int,
            depth > 0 ==> span_scan(tv, k as nat).1 == open as int,
            out@.len() == span_scan(tv, k as nat).2.len(),
            forall|q: int| 0 <= q < out@.len() ==> ((#[trigger] out@[q]).0 as int, out@[q].1 as int) == span_scan(tv, k as nat).2[q],
        decreases t@.len() - k,
    {
        let tk = &t[k];
        assert(tv[k as int] == (tk.class, tk.start as int, tk.end as int));
        let ghost prev = span_scan(tv, k as nat);
        let c = tk.class;
        if c == TokenClass::String {
            out.push((tk.start, tk.end));
        } else if c == TokenClass::FStringStart || c == TokenClass::TStringStart {
            if depth == 0 {
                open = tk.start;
            }
            depth = depth + 1;
        } else if c == TokenClass::FStringEnd || c == TokenClass::TStringEnd {
            if depth == 1 {
                out.push((open, tk.end));
                depth = 0;
            } else if depth > 1 {
                depth = depth - 1;
            }
        }
        k += 1;
        assert(span_scan(tv, k as nat).2 == if c == TokenClass::String {
            prev.2.push((tk.start as int, tk.end as int))
        } else if (c == TokenClass::FStringEnd || c == TokenClass::TStringEnd) && prev.0 == 1 {
            prev.2.push((prev.1, tk.end as int))
        } else {
            prev.2
        });
    }
    out
}

/// Whether position `i` lies strictly inside one of the spans.
fn inside_exec(spans: &Vec<(usize, usize)>, i: usize, Ghost(sv): Ghost<Seq<(int, int)>>) -> (r: bool)
    requires
        spans@.len() == sv.len(),
        forall|k: int| 0 <= k < spans@.len() ==> ((#[trigger] spans@[k]).0 as int, spans@[k].1 as int) == sv[k],
    ensures
        r == inside(sv, i as int),
{
    let mut k: usize = 0;
    while k < spans.len()
        invariant
            k <= spans@.len(),
            spans@.len() == sv.len(),
            forall|q: int| 0 <= q < spans@.len() ==> ((#[trigger] spans@[q]).0 as int, spans@[q].1 as int) == sv[q],
            forall|q: int| 0 <= q < k ==> !((#[trigger] sv[q]).0 < i < sv[q].1),
        decreases spans@.len() - k,
    {
        assert(sv[k as int] == (spans@[k as int].0 as int, spans@[k as int].1 as int));
        if spans[k].0 < i && i < spans[k].1 {
            return true;
        }
        k += 1;
    }
    false
}

/// The string spans of a source (see `string_spans`).
fn string_spans_exec(s: &[char]) -> (r: Vec<(usize, usize)>)
    ensures
        r@.len() == string_spans(s@).len(),
        forall|k: int| 0 <= k < r@.len() ==> ((#[trigger] r@[k]).0 as int, r@[k].1 as int) == string_spans(s@)[k],
{
    if s.len() > MAX_SOURCE_CHARS {
        return Vec::new();
    }
    let text = crate::text::from_chars(s);
    let toks = tokens(text.as_str());
    spans_exec(toks.as_slice())
}

/// Whether `from __future__ import` starts at `i`.
fn future_at_exec(s: &[char], i: usize) -> (r: bool)
    requires
        i <= s@.len(),
    ensures
        r == future_at(s@, i as int),
{
    let p = "from __future__ import";
    proof {
        reveal_strlit("from __future__ import");
    }
    let pc = crate::text::to_chars(p);
    assert(pc@.len() == 22);
    if s.len() - i < 22 {
        return false;
    }
    let mut k: usize = 0;
    while k < 22
        invariant
            k <= 22,
            i + 22 <= s.len(),
            pc@ == "from __future__ import"@,
            pc@.len() == 22,
            forall|j: int| 0 <= j < k ==> s@[i + j] == pc@[j],
        decreases 22 - k,
    {
        if s[i + k] != pc[k] {
            assert(s@.subrange(i as int, i + 22)[k as int] != pc@[k as int]);
            return false;
        }
        k += 1;
    }
    assert(s@.subrange(i as int, i + 22) =~= pc@);
    true
}

/// The `from __future__ import` lines of `s` and its indented body (see
/// `future_lines` and `body_upto`).
pub fn lay_out(s: &[char]) -> (r: (Vec<char>, Vec<char>))
    ensures
        r.0@ == future_lines(s@),
        r.1@ == body_upto(s@, s@.len()),
{
    let spans = string_spans_exec(s);
    let ghost sv = string_spans(s@);
    let mut futs: Vec<char> = Vec::new();
    let mut body: Vec<char> = Vec::new();
    let mut hoisting = false;
    let mut i: usize = 0;
    while i < s.len()
        invariant
            i <= s@.len(),
            sv == string_spans(s@),
            spans@.len() == sv.len(),
            forall|k: int| 0 <= k < spans@.len() ==> ((#[trigger] spans@[k]).0 as int, spans@[k].1 as int) == sv[k],
            futs@ == futures_upto(s@, i as nat),
            body@ == body_upto(s@, i as nat),
            i > 0 ==> hoisting == in_future_line(s@, (i - 1) as nat),
        decreases s@.len() - i,
    {
        let starts = i == 0 || s[i - 1] == '\n';
        let in_str = inside_exec(&spans, i, Ghost(sv));
        if starts {
            hoisting = !in_str && future_at_exec(s, i);
            assert(line_begin(s@, i as nat) == i);
        } else {
            assert(line_begin(s@, i as nat) == line_begin(s@, (i - 1) as nat));
        }
        assert(hoisting == in_future_line(s@, i as nat));
        if hoisting {
            futs.push(s[i]);
        } else {
            if starts && !in_str {
                body.push('\t');
            }
            body.push(s[i]);
        }
        proof {
            assert(futures_upto(s@, (i + 1) as nat) == futures_upto(s@, i as nat) + future_piece(
                s@,
                i as nat,
            ));
            assert(body_upto(s@, (i + 1) as nat) == body_upto(s@, i as nat) + body_piece(
                s@,
                i as nat,
            ));
        }
        assert(futs@ =~= futures_upto(s@, (i + 1) as nat));
        assert(body@ =~= body_upto(s@, (i + 1) as nat));
        i += 1;
    }
    (futs, body)
}

/// The source laid out as the body of an `if` block (see `block_body`).
pub fn block_body_exec(body: Vec<char>) -> (r: Vec<char>)
    ensures
        r@ == ({
            let b = body@;
            let ended = if b.len() > 0 && b.last() != '\n' {
                b.push('\n')
            } else {
                b
            };
            ended + "\tpass\n"@
        }),
{
    let mut out = body;
    if out.len() > 0 && out[out.len() - 1] != '\n' {
        out.push('\n');
    }
    crate::text::push_str(&mut out, "\tpass\n");
    out
}

} // verus!
