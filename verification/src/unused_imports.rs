//! Removing unused imports: Ruff's unused-import rule is run on the source,
//! the safe fixes of the imports that no `# bundle` directive protects are
//! applied, and this repeats until nothing changes, for at most
//! `MAX_SHAKE_PASSES` passes. A source that does not parse is kept as it was.
use vstd::prelude::*;
use std::ops::Range;
use std::path::Path;
use ruff_linter::linter::{ParseSource, lint_only};
use ruff_linter::registry::Rule;
use ruff_linter::settings::LinterSettings;
use ruff_linter::settings::flags::Noqa;
use ruff_linter::settings::types::UnsafeFixes;
use ruff_linter::source_kind::SourceKind;
use ruff_python_ast::PySourceType;
use ruff_text_size::Ranged;
use crate::analyzer::CommentInfo;
use crate::layout::line_begin;
use crate::text::{from_chars, to_chars};
use crate::tokens::{
    MAX_SOURCE_CHARS, Token, TokenClass, byte_start, byte_starts, char_index, tokens, tokens_of,
    tokens_view,
};
use crate::tree_shaking::{
    CommentView, EditView, FixSafety, FixView, ImportSpan, LintFix, LintOutcome, MAX_SHAKE_PASSES,
    SpanView, TextEdit, TreeShaker, comment_views, edits_view, fix_view, fix_views, fixes_in_order,
    fixes_ok, lemma_pass_views, pass_of, protected_of, span_views,
};

verus! {

/// An edit of a fix: its range in bytes and its new text.
pub type RawEdit = (Range<u32>, Option<String>);

/// A fix: whether it applies with unsafe fixes disabled, and enabled, and
/// its edits.
pub type RawFix = (bool, bool, Vec<RawEdit>);

/// A diagnostic: its range in bytes and its fix.
pub type RawDiagnostic = (Option<Range<u32>>, Option<RawFix>);

/// What the linter reports: whether the source has invalid syntax, and the
/// diagnostics.
pub type RawLint = (bool, Vec<RawDiagnostic>);

/// A raw diagnostic as values.
pub type RawDiagView = (Option<(int, int)>, Option<(bool, bool, Seq<(int, int, Seq<char>)>)>);

/// The view of a raw edit (a missing text is empty).
pub open spec fn raw_edit_view(e: RawEdit) -> (int, int, Seq<char>) {
    (
        e.0.start as int,
        e.0.end as int,
        match e.1 {
            Some(c) => c@,
            None => Seq::<char>::empty(),
        },
    )
}

/// The view of a raw diagnostic.
pub open spec fn raw_diag_view(d: RawDiagnostic) -> RawDiagView {
    (
        match d.0 {
            Some(r) => Some((r.start as int, r.end as int)),
            None => None,
        },
        match d.1 {
            Some(f) => Some((f.0, f.1, f.2@.map_values(|e: RawEdit| raw_edit_view(e)))),
            None => None,
        },
    )
}

/// The view of what the linter reports.
pub open spec fn raw_lint_view(r: RawLint) -> (bool, Seq<RawDiagView>) {
    (r.0, r.1@.map_values(|d: RawDiagnostic| raw_diag_view(d)))
}

/// What Ruff's unused-import rule reports on a source.
pub uninterp spec fn unused_import_lint(source: Seq<char>) -> (bool, Seq<RawDiagView>);

/// Ruff's unused-import rule (F401) on a source (`ruff_linter::linter::lint_only`
/// with only that rule, `noqa` off, as `module.py`), with each diagnostic's
/// range and fix edits in bytes, and whether each fix applies with unsafe
/// fixes disabled and enabled. Claimed: the result is `unused_import_lint`
/// of the source, a function of the source alone.
#[verifier::external_body]
fn lint_unused_imports(source: &str) -> (r: RawLint)
    requires
        source@.len() <= MAX_SOURCE_CHARS,
    ensures
        raw_lint_view(r) == unused_import_lint(source@),
{
    let kind = SourceKind::Python { code: source.to_string(), is_stub: false };
    let result = lint_only(Path::new("module.py"), None, &LinterSettings::for_rule(Rule::UnusedImport), Noqa::Disabled, &kind, PySourceType::Python, ParseSource::None);
    let (safe, shown) = (UnsafeFixes::Disabled.required_applicability(), UnsafeFixes::Enabled.required_applicability());
    (result.has_invalid_syntax(), result.diagnostics.iter().map(|d| (d.range().map(Range::from), d.fix().map(|f| (
        f.applies(safe), f.applies(shown), f.edits().iter().map(|e| (Range::from(e.range()), e.content().map(str::to_string))).collect(),
    )))).collect())
}

// ---------------------------------------------------------------------------
// Specifications
// ---------------------------------------------------------------------------

/// The safety of a fix: safe when it applies with unsafe fixes disabled,
/// unsafe when only with them enabled, otherwise only to be displayed.
pub open spec fn safety_of(safe: bool, unsafe_ok: bool) -> FixSafety {
    if safe {
        FixSafety::Safe
    } else if unsafe_ok {
        FixSafety::Unsafe
    } else {
        FixSafety::DisplayOnly
    }
}

/// A character position as a `usize`.
pub open spec fn pos(s: Seq<char>, b: int) -> usize {
    char_index(s, b) as usize
}

/// A diagnostic of `s` with character positions.
pub open spec fn fix_of(s: Seq<char>, d: RawDiagView) -> FixView {
    (
        match d.0 {
            Some((a, b)) => Some((pos(s, a), pos(s, b))),
            None => None,
        },
        match d.1 {
            Some(f) => Some(
                (
                    safety_of(f.0, f.1),
                    f.2.map_values(
                        |e: (int, int, Seq<char>)| (char_index(s, e.0), char_index(s, e.1), e.2),
                    ),
                ),
            ),
            None => None,
        },
    )
}

/// The number of line breaks before position `i`.
pub open spec fn line_no(s: Seq<char>, i: nat) -> int
    decreases i,
{
    if i == 0 {
        0
    } else {
        line_no(s, (i - 1) as nat) + if s[i - 1] == '\n' {
            1int
        } else {
            0int
        }
    }
}

/// Whether only blanks precede position `c` on its line.
pub open spec fn first_on_line(s: Seq<char>, c: int) -> bool {
    forall|j: int|
        line_begin(s, c as nat) <= j < c ==> s[j] == ' ' || s[j] == '\t' || s[j] == '\u{c}'
}

/// The characters `a..b` (none when the range is reversed).
pub open spec fn text_of(s: Seq<char>, a: int, b: int) -> Seq<char> {
    if 0 <= a <= b <= s.len() {
        s.subrange(a, b)
    } else {
        Seq::<char>::empty()
    }
}

/// Whether token `k` begins an import statement: it is `import` or `from`,
/// first on its line or after a `:` or `;`.
pub open spec fn starts_import(s: Seq<char>, t: Seq<(TokenClass, int, int)>, k: int) -> bool {
    &&& (t[k].0 == TokenClass::Import || t[k].0 == TokenClass::From)
    &&& (first_on_line(s, t[k].1) || (k > 0 && (t[k - 1].0 == TokenClass::Colon || t[k - 1].0
        == TokenClass::Semi)))
}

/// Where the statement begun by token `k` ends: at the next logical line
/// break or `;` from token `j` on, or at the end of the text.
pub open spec fn statement_end(s: Seq<char>, t: Seq<(TokenClass, int, int)>, j: int) -> int
    decreases t.len() - j,
{
    if j >= t.len() || j < 0 {
        s.len() as int
    } else if t[j].0 == TokenClass::Newline || t[j].0 == TokenClass::Semi {
        t[j].1
    } else {
        statement_end(s, t, j + 1)
    }
}

/// The import statements among the first `k` tokens.
pub open spec fn import_spans_upto(s: Seq<char>, t: Seq<(TokenClass, int, int)>, k: nat) -> Seq<SpanView>
    decreases k,
{
    if k == 0 || k > t.len() {
        Seq::<SpanView>::empty()
    } else {
        let prev = import_spans_upto(s, t, (k - 1) as nat);
        let i = k - 1;
        if starts_import(s, t, i) {
            prev.push(
                (line_no(s, t[i].1 as nat) as usize, t[i].1 as usize, statement_end(s, t, i + 1) as usize),
            )
        } else {
            prev
        }
    }
}

/// The comments among the first `k` tokens: line, text, and what precedes
/// them on their line.
pub open spec fn comments_upto(s: Seq<char>, t: Seq<(TokenClass, int, int)>, k: nat) -> Seq<CommentView>
    decreases k,
{
    if k == 0 || k > t.len() {
        Seq::<CommentView>::empty()
    } else {
        let prev = comments_upto(s, t, (k - 1) as nat);
        let i = k - 1;
        if t[i].0 == TokenClass::Comment {
            prev.push(
                (
                    line_no(s, t[i].1 as nat) as usize,
                    text_of(s, t[i].1, t[i].2),
                    text_of(s, line_begin(s, t[i].1 as nat) as int, t[i].1),
                ),
            )
        } else {
            prev
        }
    }
}

/// What linting a source gives: whether it is invalid, the diagnostics,
/// the import statements and the comments.
pub open spec fn lint_outcome_of(s: Seq<char>) -> (bool, Seq<FixView>, Seq<SpanView>, Seq<CommentView>) {
    let raw = unused_import_lint(s);
    let t = tokens_of(s);
    (
        raw.0,
        raw.1.map_values(|d: RawDiagView| fix_of(s, d)),
        import_spans_upto(s, t, t.len()),
        comments_upto(s, t, t.len()),
    )
}

/// Tree shaking from pass `passes` on, with `cur` the source so far: a
/// source that does not parse gives back the original; the passes stop
/// when no fix applies, when a fix's edits are out of order, when the text
/// grows past what the linter measures, or after the last pass.
pub open spec fn shake_from(orig: Seq<char>, cur: Seq<char>, passes: int) -> Seq<char>
    decreases MAX_SHAKE_PASSES - passes,
{
    if passes < 0 || passes >= MAX_SHAKE_PASSES || cur.len() > MAX_SOURCE_CHARS {
        cur
    } else {
        let o = lint_outcome_of(cur);
        if o.0 {
            orig
        } else if !fixes_ok(o.1, cur.len() as int) {
            cur
        } else {
            match pass_of(cur, o.1, protected_of(o.2, o.3)) {
                None => cur,
                Some(next) => if passes + 1 >= MAX_SHAKE_PASSES {
                    next
                } else {
                    shake_from(orig, next, passes + 1)
                },
            }
        }
    }
}

/// A source with its unused imports removed.
pub open spec fn shaken(s: Seq<char>) -> Seq<char> {
    shake_from(s, s, 0)
}


// ---------------------------------------------------------------------------
// Executable functions
// ---------------------------------------------------------------------------

/// A diagnostic of `s` with character positions (see `fix_of`).
fn fix_from_raw(s: &[char], starts: &Vec<u64>, d: &RawDiagnostic) -> (r: LintFix)
    requires
        starts@.len() == s@.len() + 1,
        forall|i: int| 0 <= i <= s@.len() ==> starts@[i] == byte_start(s@, i as nat),
        forall|i: int, j: int| 0 <= i < j <= s@.len() ==> starts@[i] < starts@[j],
    ensures
        fix_view(r) == fix_of(s@, raw_diag_view(*d)),
{
    let range = match &d.0 {
        Some(r) => Some(
            (
                crate::tokens::char_index_exec(s, starts, r.start as u64),
                crate::tokens::char_index_exec(s, starts, r.end as u64),
            ),
        ),
        None => None,
    };
    let fix = match &d.1 {
        Some(f) => {
            let safety = if f.0 {
                FixSafety::Safe
            } else if f.1 {
                FixSafety::Unsafe
            } else {
                FixSafety::DisplayOnly
            };
            let ghost ev = f.2@.map_values(|e: RawEdit| raw_edit_view(e)).map_values(
                |e: (int, int, Seq<char>)| (char_index(s@, e.0), char_index(s@, e.1), e.2),
            );
            let mut edits: Vec<TextEdit> = Vec::new();
            let mut k: usize = 0;
            while k < f.2.len()
                invariant
                    k <= f.2@.len(),
                    starts@.len() == s@.len() + 1,
                    forall|i: int| 0 <= i <= s@.len() ==> starts@[i] == byte_start(s@, i as nat),
                    forall|i: int, j: int| 0 <= i < j <= s@.len() ==> starts@[i] < starts@[j],
                    ev == f.2@.map_values(|e: RawEdit| raw_edit_view(e)).map_values(
                        |e: (int, int, Seq<char>)| (char_index(s@, e.0), char_index(s@, e.1), e.2),
                    ),
                    edits_view(edits@) == ev.take(k as int),
                decreases f.2@.len() - k,
            {
                let e = &f.2[k];
                let a = crate::tokens::char_index_exec(s, starts, e.0.start as u64);
                let b = crate::tokens::char_index_exec(s, starts, e.0.end as u64);
                let content = match &e.1 {
                    Some(c) => c.clone(),
                    None => String::new(),
                };
                let ghost before = edits@;
                edits.push(TextEdit { start: a, end: b, content });
                assert(edits_view(edits@) =~= edits_view(before).push((a as int, b as int, content@)));
                assert(ev.take(k + 1) =~= ev.take(k as int).push(ev[k as int]));
                k += 1;
            }
            assert(ev.take(f.2@.len() as int) =~= ev);
            Some((safety, edits))
        },
        None => None,
    };
    LintFix { range, fix }
}

/// The line number and line start of every position of `s`, and of its end.
fn line_tables(s: &[char]) -> (r: (Vec<usize>, Vec<usize>))
    ensures
        r.0@.len() == s@.len() + 1,
        r.1@.len() == s@.len() + 1,
        forall|i: int| 0 <= i <= s@.len() ==> r.0@[i] == line_no(s@, i as nat),
        forall|i: int| 0 <= i <= s@.len() ==> r.1@[i] == line_begin(s@, i as nat),
        forall|i: int| 0 <= i <= s@.len() ==> r.1@[i] <= i,
{
    let mut lines: Vec<usize> = Vec::new();
    let mut begins: Vec<usize> = Vec::new();
    let mut line: usize = 0;
    let mut begin: usize = 0;
    let mut i: usize = 0;
    while i < s.len()
        invariant
            i <= s@.len(),
            lines@.len() == i,
            begins@.len() == i,
            line == line_no(s@, i as nat),
            line <= i,
            begin == line_begin(s@, i as nat),
            begin <= i,
            forall|k: int| 0 <= k < i ==> lines@[k] == line_no(s@, k as nat),
            forall|k: int| 0 <= k < i ==> begins@[k] == line_begin(s@, k as nat),
            forall|k: int| 0 <= k < i ==> begins@[k] <= k,
        decreases s@.len() - i,
    {
        lines.push(line);
        begins.push(begin);
        if s[i] == '\n' {
            line = line + 1;
            begin = i + 1;
        }
        i += 1;
    }
    lines.push(line);
    begins.push(begin);
    (lines, begins)
}

/// The characters `a..b` of `s` (see `text_of`).
fn text_exec(s: &[char], a: usize, b: usize) -> (r: String)
    ensures
        r@ == text_of(s@, a as int, b as int),
{
    if a <= b && b <= s.len() {
        let mut out: Vec<char> = Vec::new();
        let mut k = a;
        while k < b
            invariant
                a <= k <= b <= s@.len(),
                out@ == s@.subrange(a as int, k as int),
            decreases b - k,
        {
            out.push(s[k]);
            k += 1;
            assert(out@ =~= s@.subrange(a as int, k as int));
        }
        from_chars(out.as_slice())
    } else {
        from_chars(&[])
    }
}

/// Whether only blanks precede position `c` on its line.
fn first_on_line_exec(s: &[char], begin: usize, c: usize) -> (r: bool)
    requires
        c <= s@.len(),
        begin == line_begin(s@, c as nat),
        begin <= c,
    ensures
        r == first_on_line(s@, c as int),
{
    let mut j = begin;
    while j < c
        invariant
            begin <= j <= c <= s@.len(),
            begin == line_begin(s@, c as nat),
            forall|k: int| begin <= k < j ==> s@[k] == ' ' || s@[k] == '\t' || s@[k] == '\u{c}',
        decreases c - j,
    {
        if !(s[j] == ' ' || s[j] == '\t' || s[j] == '\u{c}') {
            return false;
        }
        j += 1;
    }
    true
}

/// Where the statement ends that continues at token `j` (see `statement_end`).
fn statement_end_exec(s: &[char], t: &[Token], j: usize) -> (r: usize)
    requires
        forall|k: int| 0 <= k < t@.len() ==> (#[trigger] t@[k]).start <= s@.len(),
    ensures
        r == statement_end(s@, tokens_view(t@), j as int),
{
    let ghost tv = tokens_view(t@);
    let mut k = j;
    while k < t.len() && !(t[k].class == TokenClass::Newline || t[k].class == TokenClass::Semi)
        invariant
            j <= k,
            tv == tokens_view(t@),
            statement_end(s@, tv, j as int) == statement_end(s@, tv, k as int),
        decreases t@.len() - k,
    {
        assert(tv[k as int] == (t@[k as int].class, t@[k as int].start as int, t@[k as int].end as int));
        k += 1;
    }
    if k < t.len() {
        assert(tv[k as int] == (t@[k as int].class, t@[k as int].start as int, t@[k as int].end as int));
        t[k].start
    } else {
        s.len()
    }
}

/// The import statements and comments of `s` found among its tokens.
fn spans_and_comments(s: &[char], t: &[Token]) -> (r: (Vec<ImportSpan>, Vec<CommentInfo>))
    requires
        forall|k: int| 0 <= k < t@.len() ==> (#[trigger] t@[k]).start <= s@.len() && t@[k].end <= s@.len(),
    ensures
        span_views(r.0@) == import_spans_upto(s@, tokens_view(t@), t@.len()),
        comment_views(r.1@) == comments_upto(s@, tokens_view(t@), t@.len()),
{
    let (lines, begins) = line_tables(s);
    let ghost tv = tokens_view(t@);
    let mut spans: Vec<ImportSpan> = Vec::new();
    let mut comments: Vec<CommentInfo> = Vec::new();
    let mut k: usize = 0;
    while k < t.len()
        invariant
            k <= t@.len(),
            tv == tokens_view(t@),
            tv.len() == t@.len(),
            forall|q: int| 0 <= q < t@.len() ==> (#[trigger] t@[q]).start <= s@.len() && t@[q].end <= s@.len(),
            lines@.len() == s@.len() + 1,
            begins@.len() == s@.len() + 1,
            forall|i: int| 0 <= i <= s@.len() ==> lines@[i] == line_no(s@, i as nat),
            forall|i: int| 0 <= i <= s@.len() ==> begins@[i] == line_begin(s@, i as nat),
            forall|i: int| 0 <= i <= s@.len() ==> begins@[i] <= i,
            span_views(spans@) == import_spans_upto(s@, tv, k as nat),
            comment_views(comments@) == comments_upto(s@, tv, k as nat),
        decreases t@.len() - k,
    {
        let tk = &t[k];
        assert(tv[k as int] == (tk.class, tk.start as int, tk.end as int));
        let c = tk.start;
        if tk.class == TokenClass::Import || tk.class == TokenClass::From {
            let first = first_on_line_exec(s, begins[c], c);
            let after = k > 0 && (t[k - 1].class == TokenClass::Colon || t[k - 1].class == TokenClass::Semi);
            if k > 0 {
                assert(tv[k - 1] == (t@[k - 1].class, t@[k - 1].start as int, t@[k - 1].end as int));
            }
            if first || after {
                let end = statement_end_exec(s, t, k + 1);
                let ghost before = spans@;
                spans.push(ImportSpan { line: lines[c], start: c, end });
                assert(span_views(spans@) =~= span_views(before).push((lines[c as int], c, end)));
            }
        }
        if tk.class == TokenClass::Comment {
            let text = text_exec(s, c, tk.end);
            let leading = text_exec(s, begins[c], c);
            let ghost before = comments@;
            comments.push(CommentInfo { line: lines[c], text, leading });
            assert(comment_views(comments@) =~= comment_views(before).push(
                (lines[c as int], text_of(s@, c as int, tk.end as int), text_of(s@, begins[c as int] as int, c as int)),
            ));
        }
        k += 1;
    }
    (spans, comments)
}

/// What Ruff makes of a source for tree shaking (see `lint_outcome_of`).
pub fn lint_outcome(source: &str) -> (r: LintOutcome)
    requires
        source@.len() <= MAX_SOURCE_CHARS,
    ensures
        match r {
            LintOutcome::InvalidSyntax => lint_outcome_of(source@).0,
            LintOutcome::Checked(d, im, cm) => !lint_outcome_of(source@).0 && fix_views(d@)
                == lint_outcome_of(source@).1 && span_views(im@) == lint_outcome_of(source@).2
                && comment_views(cm@) == lint_outcome_of(source@).3,
        },
{
    let raw = lint_unused_imports(source);
    if raw.0 {
        return LintOutcome::InvalidSyntax;
    }
    let s = to_chars(source);
    let starts = byte_starts(s.as_slice());
    let ghost rv = raw_lint_view(raw).1;
    let mut fixes: Vec<LintFix> = Vec::new();
    let mut i: usize = 0;
    while i < raw.1.len()
        invariant
            i <= raw.1@.len(),
            s@ == source@,
            starts@.len() == s@.len() + 1,
            forall|k: int| 0 <= k <= s@.len() ==> starts@[k] == byte_start(s@, k as nat),
            forall|a: int, b: int| 0 <= a < b <= s@.len() ==> starts@[a] < starts@[b],
            rv == raw_lint_view(raw).1,
            fix_views(fixes@) == rv.map_values(|d: RawDiagView| fix_of(s@, d)).take(i as int),
        decreases raw.1@.len() - i,
    {
        let f = fix_from_raw(s.as_slice(), &starts, &raw.1[i]);
        let ghost before = fixes@;
        fixes.push(f);
        assert(fix_views(fixes@) =~= fix_views(before).push(fix_view(f)));
        assert(rv[i as int] == raw_diag_view(raw.1@[i as int]));
        let ghost all = rv.map_values(|d: RawDiagView| fix_of(s@, d));
        assert(all.take(i + 1) =~= all.take(i as int).push(all[i as int]));
        i += 1;
    }
    assert(rv.map_values(|d: RawDiagView| fix_of(s@, d)).take(i as int) =~= rv.map_values(
        |d: RawDiagView| fix_of(s@, d),
    ));
    let toks = tokens(source);
    let (spans, comments) = spans_and_comments(s.as_slice(), toks.as_slice());
    LintOutcome::Checked(fixes, spans, comments)
}


/// The comments of a source, found among Ruff's tokens: each with its
/// line, its text and what precedes it on its line (none for a text too
/// long to tokenize).
pub fn source_comments(source: &str) -> (r: Vec<CommentInfo>)
    ensures
        source@.len() <= MAX_SOURCE_CHARS ==> comment_views(r@) == comments_upto(
            source@,
            tokens_of(source@),
            tokens_of(source@).len(),
        ),
        source@.len() > MAX_SOURCE_CHARS ==> r@.len() == 0,
{
    let s = to_chars(source);
    if s.len() > MAX_SOURCE_CHARS {
        return Vec::new();
    }
    let toks = tokens(source);
    let (_, comments) = spans_and_comments(s.as_slice(), toks.as_slice());
    comments
}

/// Removes the unused imports of a source (see `shaken`): Ruff's safe
/// unused-import fixes are applied pass after pass, except within imports
/// marked `# bundle`, until no fix applies; a source that does not parse is
/// given back unchanged.
pub fn remove_unused_imports(source: &str) -> (r: String)
    ensures
        r@ == shaken(source@),
{
    let mut shaker = TreeShaker::new(source);
    loop
        invariant
            shaker.original_view() == source@,
            0 <= shaker.passes_view() < MAX_SHAKE_PASSES,
            shake_from(source@, shaker.current_view(), shaker.passes_view()) == shaken(source@),
        decreases MAX_SHAKE_PASSES - shaker.passes_view(),
    {
        let cur = crate::text::string_of(shaker.current());
        let n = to_chars(cur.as_str()).len();
        if n > MAX_SOURCE_CHARS {
            return cur;
        }
        let outcome = lint_outcome(cur.as_str());
        let ghost o = lint_outcome_of(cur@);
        let ghost p = shaker.passes_view();
        assert(cur@.len() <= MAX_SOURCE_CHARS);
        assert(p < MAX_SHAKE_PASSES);
        assert(o == lint_outcome_of(cur@));
        assert(!(p < 0 || p >= MAX_SHAKE_PASSES || cur@.len() > MAX_SOURCE_CHARS));
        assert(shake_from(source@, cur@, p) == if o.0 {
            source@
        } else if !fixes_ok(o.1, cur@.len() as int) {
            cur@
        } else {
            match pass_of(cur@, o.1, protected_of(o.2, o.3)) {
                None => cur@,
                Some(next) => if p + 1 >= MAX_SHAKE_PASSES {
                    next
                } else {
                    shake_from(source@, next, p + 1)
                },
            }
        });
        match &outcome {
            LintOutcome::Checked(d, im, cm) => {
                proof {
                    lemma_pass_views(cur@, d@, im@, cm@);
                }
                if !fixes_in_order(d.as_slice(), n) {
                    return cur;
                }
            },
            LintOutcome::InvalidSyntax => {},
        }
        match shaker.feed(outcome) {
            Some(done) => {
                return done;
            },
            None => {},
        }
    }
}

} // verus!
