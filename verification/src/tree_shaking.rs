//! One pass of removing unused imports. Ruff's linter, run for its
//! unused-import rule (see `unused_imports`), reports diagnostics with
//! fixes; one pass applies
//! the safe fixes that do not touch an import marked `# bundle`, in order
//! of their first edit, skipping any fix that overlaps one applied before.
//! Passes repeat until nothing changes, at most a hundred times; a source
//! that does not parse is kept as it is.
use vstd::prelude::*;
use crate::analyzer::{
    CommentInfo, collect_directives, comment_body, contains_seq, directive_marks, is_bundle,
    is_skipped_import, marked,
};
use crate::text::trim;
use crate::text::{from_chars, string_of, to_chars};

verus! {

/// One edit of a fix: replace the characters `start..end` by `content`.
#[derive(Debug)]
pub struct TextEdit {
    /// The first character replaced.
    pub start: usize,
    /// The character after the last one replaced.
    pub end: usize,
    /// What replaces them.
    pub content: String,
}

/// How safe a fix is, from least to most.
#[derive(Debug)]
pub enum FixSafety {
    /// Only to be shown.
    DisplayOnly,
    /// To be applied on request only.
    Unsafe,
    /// Safe to apply.
    Safe,
}

/// A diagnostic of the linter: the characters it covers, and its fix.
#[derive(Debug)]
pub struct LintFix {
    /// The characters the diagnostic covers, if it covers any.
    pub range: Option<(usize, usize)>,
    /// The fix: its safety and its edits, sorted by position.
    pub fix: Option<(FixSafety, Vec<TextEdit>)>,
}

/// An import statement: its line and the characters it spans.
#[derive(Debug)]
pub struct ImportSpan {
    /// The zero-based line it starts on.
    pub line: usize,
    /// Its first character.
    pub start: usize,
    /// The character after its last one.
    pub end: usize,
}

/// An edit as values.
pub type EditView = (int, int, Seq<char>);

/// The view of edits.
pub open spec fn edits_view(v: Seq<TextEdit>) -> Seq<EditView> {
    v.map_values(|e: TextEdit| (e.start as int, e.end as int, e.content@))
}

/// Whether edits lie within `len` characters, in order and apart.
pub open spec fn edits_wf(es: Seq<EditView>, len: int) -> bool {
    forall|j: int|
        0 <= j < es.len() ==> 0 <= #[trigger] es[j].0 <= es[j].1 <= len && (j + 1 < es.len() ==> es[j].1
            <= es[j + 1].0)
}

/// Whether every fix of the diagnostics has well-formed edits.
pub open spec fn fixes_wf(diags: Seq<LintFix>, len: int) -> bool {
    forall|i: int|
        0 <= i < diags.len() ==> match #[trigger] diags[i].fix {
            Some((_, es)) => edits_wf(edits_view(es@), len),
            None => true,
        }
}

/// Whether a range lies within one of the protected ranges.
pub open spec fn is_protected(r: (usize, usize), prot: Seq<(usize, usize)>) -> bool {
    exists|k: int| 0 <= k < prot.len() && (#[trigger] prot[k]).0 <= r.0 && r.1 <= prot[k].1
}

/// Whether a diagnostic's fix is applied: it is safe and the diagnostic
/// does not lie within a protected range.
pub open spec fn applies(d: LintFix, prot: Seq<(usize, usize)>) -> bool {
    (d.range is None || !is_protected(d.range->0, prot)) && d.fix matches Some((FixSafety::Safe, _))
}

/// The edits of the fixes that are applied, in diagnostic order.
pub open spec fn selected(diags: Seq<LintFix>, prot: Seq<(usize, usize)>) -> Seq<Seq<EditView>>
    decreases diags.len(),
{
    if diags.len() == 0 {
        Seq::<Seq<EditView>>::empty()
    } else {
        let prev = selected(diags.drop_last(), prot);
        let d = diags.last();
        match d.fix {
            Some((_, es)) => if applies(d, prot) {
                prev.push(edits_view(es@))
            } else {
                prev
            },
            None => prev,
        }
    }
}

/// Where a fix starts: its first edit's start (none for a fix without edits).
pub open spec fn fix_key(f: Seq<EditView>) -> Option<int> {
    if f.len() == 0 {
        None
    } else {
        Some(f[0].0)
    }
}

/// The order of fix starts, a fix without edits first.
pub open spec fn key_le(a: Option<int>, b: Option<int>) -> bool {
    match (a, b) {
        (None, _) => true,
        (Some(_), None) => false,
        (Some(x), Some(y)) => x <= y,
    }
}

/// Inserts a fix after the fixes that start no later.
pub open spec fn insert_sorted(s: Seq<Seq<EditView>>, f: Seq<EditView>) -> Seq<Seq<EditView>>
    decreases s.len(),
{
    if s.len() == 0 || key_le(fix_key(s.last()), fix_key(f)) {
        s.push(f)
    } else {
        insert_sorted(s.drop_last(), f).push(s.last())
    }
}

/// The fixes sorted by start, fixes starting together in their order.
pub open spec fn sort_fixes(fs: Seq<Seq<EditView>>) -> Seq<Seq<EditView>>
    decreases fs.len(),
{
    if fs.len() == 0 {
        Seq::<Seq<EditView>>::empty()
    } else {
        insert_sorted(sort_fixes(fs.drop_last()), fs.last())
    }
}

/// Copies the source up to each edit and then the edit's content,
/// continuing after the edit.
pub open spec fn splice_edits(src: Seq<char>, st: (Seq<char>, Option<int>), es: Seq<EditView>) -> (
    Seq<char>,
    Option<int>,
)
    decreases es.len(),
{
    if es.len() == 0 {
        st
    } else {
        let prev = splice_edits(src, st, es.drop_last());
        let e = es.last();
        let from = match prev.1 {
            Some(p) => p,
            None => 0,
        };
        (prev.0 + src.subrange(from, e.0) + e.2, Some(e.1))
    }
}

/// Applies a fix unless it has no edits or starts before the end of the
/// fix applied last.
pub open spec fn splice_fix(src: Seq<char>, st: (Seq<char>, Option<int>), f: Seq<EditView>) -> (
    Seq<char>,
    Option<int>,
) {
    if f.len() == 0 {
        st
    } else if st.1 matches Some(p) && p >= f[0].0 {
        st
    } else {
        splice_edits(src, st, f)
    }
}

/// Applies the fixes in order.
pub open spec fn splice_all(src: Seq<char>, fs: Seq<Seq<EditView>>) -> (Seq<char>, Option<int>)
    decreases fs.len(),
{
    if fs.len() == 0 {
        (Seq::<char>::empty(), None)
    } else {
        splice_fix(src, splice_all(src, fs.drop_last()), fs.last())
    }
}

/// One pass: the source with the applied fixes, or none when no fix applies.
pub open spec fn shake_pass(src: Seq<char>, diags: Seq<LintFix>, prot: Seq<(usize, usize)>) -> Option<
    Seq<char>,
> {
    let st = splice_all(src, sort_fixes(selected(diags, prot)));
    match st.1 {
        Some(p) => Some(st.0 + src.skip(p)),
        None => None,
    }
}

/// The spans of the imports marked `# bundle` (see `marked`).
pub open spec fn protected_spec(imports: Seq<ImportSpan>, comments: Seq<CommentInfo>) -> Seq<(usize, usize)>
    decreases imports.len(),
{
    if imports.len() == 0 {
        Seq::<(usize, usize)>::empty()
    } else {
        let prev = protected_spec(imports.drop_last(), comments);
        let i = imports.last();
        if marked(comments, false, i.line as int) {
            prev.push((i.start, i.end))
        } else {
            prev
        }
    }
}

/// A diagnostic as values: its range, and its fix's safety and edits.
pub type FixView = (Option<(usize, usize)>, Option<(FixSafety, Seq<EditView>)>);

/// The view of a diagnostic.
pub open spec fn fix_view(d: LintFix) -> FixView {
    (
        d.range,
        match d.fix {
            Some((s, es)) => Some((s, edits_view(es@))),
            None => None,
        },
    )
}

/// The views of diagnostics.
pub open spec fn fix_views(v: Seq<LintFix>) -> Seq<FixView> {
    v.map_values(|d: LintFix| fix_view(d))
}

/// An import statement as values: its line, first character and end.
pub type SpanView = (usize, usize, usize);

/// The views of import statements.
pub open spec fn span_views(v: Seq<ImportSpan>) -> Seq<SpanView> {
    v.map_values(|i: ImportSpan| (i.line, i.start, i.end))
}

/// A comment as values: its line, its text and what precedes it.
pub type CommentView = (usize, Seq<char>, Seq<char>);

/// The views of comments.
pub open spec fn comment_views(v: Seq<CommentInfo>) -> Seq<CommentView> {
    v.map_values(|c: CommentInfo| (c.line, c.text@, c.leading@))
}

/// Whether a `# bundle` comment marks `line`: on that line, or alone on the
/// line before.
pub open spec fn bundle_marked(cs: Seq<CommentView>, line: int) -> bool {
    exists|k: int|
        0 <= k < cs.len() && contains_seq(comment_body((#[trigger] cs[k]).1), "bundle"@) && !contains_seq(
            comment_body(cs[k].1),
            "no-bundle"@,
        ) && (cs[k].0 == line || (trim(cs[k].2).len() == 0 && cs[k].0 + 1 == line))
}

/// The spans of the imports marked `# bundle`, as values.
pub open spec fn protected_of(imports: Seq<SpanView>, comments: Seq<CommentView>) -> Seq<(usize, usize)>
    decreases imports.len(),
{
    if imports.len() == 0 {
        Seq::<(usize, usize)>::empty()
    } else {
        let prev = protected_of(imports.drop_last(), comments);
        let i = imports.last();
        if bundle_marked(comments, i.0 as int) {
            prev.push((i.1, i.2))
        } else {
            prev
        }
    }
}

/// Whether a diagnostic's fix is applied, as values.
pub open spec fn applies_view(d: FixView, prot: Seq<(usize, usize)>) -> bool {
    (d.0 is None || !is_protected(d.0->0, prot)) && d.1 matches Some((FixSafety::Safe, _))
}

/// The edits of the fixes that are applied, as values.
pub open spec fn selected_of(diags: Seq<FixView>, prot: Seq<(usize, usize)>) -> Seq<Seq<EditView>>
    decreases diags.len(),
{
    if diags.len() == 0 {
        Seq::<Seq<EditView>>::empty()
    } else {
        let prev = selected_of(diags.drop_last(), prot);
        let d = diags.last();
        match d.1 {
            Some((_, es)) => if applies_view(d, prot) {
                prev.push(es)
            } else {
                prev
            },
            None => prev,
        }
    }
}

/// Whether every fix has well-formed edits, as values.
pub open spec fn fixes_ok(diags: Seq<FixView>, len: int) -> bool {
    forall|i: int|
        0 <= i < diags.len() ==> match (#[trigger] diags[i]).1 {
            Some((_, es)) => edits_wf(es, len),
            None => true,
        }
}

/// One pass over values (see `shake_pass`).
pub open spec fn pass_of(src: Seq<char>, diags: Seq<FixView>, prot: Seq<(usize, usize)>) -> Option<Seq<char>> {
    let st = splice_all(src, sort_fixes(selected_of(diags, prot)));
    match st.1 {
        Some(p) => Some(st.0 + src.skip(p)),
        None => None,
    }
}

proof fn lemma_selected_views(diags: Seq<LintFix>, prot: Seq<(usize, usize)>)
    ensures
        selected(diags, prot) == selected_of(fix_views(diags), prot),
    decreases diags.len(),
{
    if diags.len() > 0 {
        lemma_selected_views(diags.drop_last(), prot);
        assert(fix_views(diags).drop_last() =~= fix_views(diags.drop_last()));
        assert(fix_views(diags).last() == fix_view(diags.last()));
    }
}

proof fn lemma_marked_views(comments: Seq<CommentInfo>, line: int)
    ensures
        marked(comments, false, line) == bundle_marked(comment_views(comments), line),
{
    let cv = comment_views(comments);
    if marked(comments, false, line) {
        let k = choose|k: int|
            0 <= k < comments.len() && is_bundle(comments[k]) && (comments[k].line == line || (trim(
                comments[k].leading@,
            ).len() == 0 && comments[k].line + 1 == line));
        assert(cv[k] == (comments[k].line, comments[k].text@, comments[k].leading@));
    }
    if bundle_marked(cv, line) {
        let k = choose|k: int|
            0 <= k < cv.len() && contains_seq(comment_body((#[trigger] cv[k]).1), "bundle"@)
                && !contains_seq(comment_body(cv[k].1), "no-bundle"@) && (cv[k].0 == line || (trim(
                cv[k].2,
            ).len() == 0 && cv[k].0 + 1 == line));
        assert(cv[k] == (comments[k].line, comments[k].text@, comments[k].leading@));
        assert(is_bundle(comments[k]));
    }
}

proof fn lemma_protected_views(imports: Seq<ImportSpan>, comments: Seq<CommentInfo>)
    ensures
        protected_spec(imports, comments) == protected_of(span_views(imports), comment_views(comments)),
    decreases imports.len(),
{
    if imports.len() > 0 {
        lemma_protected_views(imports.drop_last(), comments);
        assert(span_views(imports).drop_last() =~= span_views(imports.drop_last()));
        lemma_marked_views(comments, imports.last().line as int);
    }
}

/// A pass over the diagnostics is the pass over their views.
pub proof fn lemma_pass_views(src: Seq<char>, diags: Seq<LintFix>, imports: Seq<ImportSpan>, comments: Seq<CommentInfo>)
    ensures
        shake_pass(src, diags, protected_spec(imports, comments)) == pass_of(
            src,
            fix_views(diags),
            protected_of(span_views(imports), comment_views(comments)),
        ),
        fixes_wf(diags, src.len() as int) == fixes_ok(fix_views(diags), src.len() as int),
{
    lemma_protected_views(imports, comments);
    lemma_selected_views(diags, protected_spec(imports, comments));
    let fv = fix_views(diags);
    assert forall|i: int| 0 <= i < diags.len() implies (#[trigger] fv[i]) == fix_view(diags[i]) by {}
    if fixes_wf(diags, src.len() as int) {
        assert forall|i: int| 0 <= i < fv.len() implies match (#[trigger] fv[i]).1 {
            Some((_, es)) => edits_wf(es, src.len() as int),
            None => true,
        } by {
            assert(fv[i] == fix_view(diags[i]));
            match diags[i].fix {
                Some(_) => {},
                None => {},
            }
        }
    }
    if fixes_ok(fv, src.len() as int) {
        assert forall|i: int| 0 <= i < diags.len() implies match (#[trigger] diags[i]).fix {
            Some((_, es)) => edits_wf(edits_view(es@), src.len() as int),
            None => true,
        } by {
            assert(fv[i] == fix_view(diags[i]));
        }
    }
}

/// The spans of the imports marked `# bundle`, which tree shaking keeps.
pub fn protected_ranges(imports: &[ImportSpan], comments: &[CommentInfo]) -> (r: Vec<(usize, usize)>)
    ensures
        r@ == protected_spec(imports@, comments@),
{
    let dirs = collect_directives(comments, false);
    let mut out: Vec<(usize, usize)> = Vec::new();
    let mut i: usize = 0;
    while i < imports.len()
        invariant
            i <= imports@.len(),
            forall|line: usize| directive_marks(dirs, line) == marked(comments@, false, line as int),
            out@ == protected_spec(imports@.take(i as int), comments@),
        decreases imports@.len() - i,
    {
        assert(imports@.take(i + 1).drop_last() =~= imports@.take(i as int));
        if is_skipped_import(imports[i].line, &dirs) {
            out.push((imports[i].start, imports[i].end));
        }
        i += 1;
    }
    assert(imports@.take(imports@.len() as int) =~= imports@);
    out
}

/// Whether the range lies within a protected one.
fn protected_exec(r: (usize, usize), prot: &[(usize, usize)]) -> (b: bool)
    ensures
        b == is_protected(r, prot@),
{
    let mut k: usize = 0;
    while k < prot.len()
        invariant
            k <= prot@.len(),
            forall|j: int| 0 <= j < k ==> !((#[trigger] prot@[j]).0 <= r.0 && r.1 <= prot@[j].1),
        decreases prot@.len() - k,
    {
        if prot[k].0 <= r.0 && r.1 <= prot[k].1 {
            return true;
        }
        k += 1;
    }
    false
}

/// A copy of edits.
fn copy_edits(v: &[TextEdit]) -> (r: Vec<TextEdit>)
    ensures
        edits_view(r@) == edits_view(v@),
{
    let mut out: Vec<TextEdit> = Vec::new();
    let mut i: usize = 0;
    while i < v.len()
        invariant
            i <= v@.len(),
            edits_view(out@) == edits_view(v@).take(i as int),
        decreases v@.len() - i,
    {
        let ghost before = out@;
        out.push(TextEdit { start: v[i].start, end: v[i].end, content: v[i].content.clone() });
        assert(edits_view(out@) =~= edits_view(before).push(edits_view(v@)[i as int]));
        assert(edits_view(v@).take(i + 1) =~= edits_view(v@).take(i as int).push(edits_view(v@)[i as int]));
        i += 1;
    }
    assert(edits_view(v@).take(v@.len() as int) =~= edits_view(v@));
    out
}

/// The views of fixes' edits.
pub open spec fn fixes_view(v: Seq<Vec<TextEdit>>) -> Seq<Seq<EditView>> {
    v.map_values(|f: Vec<TextEdit>| edits_view(f@))
}

/// The edits of the fixes that apply, in diagnostic order.
fn select_fixes(diags: &[LintFix], prot: &[(usize, usize)]) -> (r: Vec<Vec<TextEdit>>)
    ensures
        fixes_view(r@) == selected(diags@, prot@),
{
    let mut out: Vec<Vec<TextEdit>> = Vec::new();
    let mut i: usize = 0;
    while i < diags.len()
        invariant
            i <= diags@.len(),
            fixes_view(out@) == selected(diags@.take(i as int), prot@),
        decreases diags@.len() - i,
    {
        assert(diags@.take(i + 1).drop_last() =~= diags@.take(i as int));
        assert(diags@.take(i + 1).last() == diags@[i as int]);
        let d = &diags[i];
        let outside = match d.range {
            None => true,
            Some(r) => !protected_exec(r, prot),
        };
        match &d.fix {
            Some((FixSafety::Safe, es)) => {
                if outside {
                    let ghost before = out@;
                    out.push(copy_edits(es.as_slice()));
                    assert(fixes_view(out@) =~= fixes_view(before).push(edits_view(es@)));
                }
            },
            _ => {},
        }
        i += 1;
    }
    assert(diags@.take(diags@.len() as int) =~= diags@);
    out
}

/// Where a fix starts.
fn fix_start(f: &Vec<TextEdit>) -> (r: Option<usize>)
    ensures
        match r {
            Some(s) => fix_key(edits_view(f@)) == Some(s as int),
            None => fix_key(edits_view(f@)) is None,
        },
{
    if f.len() == 0 {
        None
    } else {
        Some(f[0].start)
    }
}

/// The order of fix starts.
fn key_le_exec(a: Option<usize>, b: Option<usize>) -> (r: bool)
    ensures
        r == key_le(
            match a {
                Some(x) => Some(x as int),
                None => None,
            },
            match b {
                Some(x) => Some(x as int),
                None => None,
            },
        ),
{
    match (a, b) {
        (None, _) => true,
        (Some(_), None) => false,
        (Some(x), Some(y)) => x <= y,
    }
}

proof fn lemma_insert_sorted(s: Seq<Seq<EditView>>, f: Seq<EditView>, p: int)
    requires
        0 <= p <= s.len(),
        forall|k: int| p <= k < s.len() ==> !key_le(fix_key(#[trigger] s[k]), fix_key(f)),
        p == 0 || key_le(fix_key(s[p - 1]), fix_key(f)),
    ensures
        insert_sorted(s, f) == s.insert(p, f),
    decreases s.len(),
{
    if s.len() == p {
        assert(s.insert(p, f) =~= s.push(f));
    } else {
        assert(!key_le(fix_key(s[s.len() - 1]), fix_key(f)));
        lemma_insert_sorted(s.drop_last(), f, p);
        assert(s.insert(p, f) =~= s.drop_last().insert(p, f).push(s.last()));
    }
}

/// The fixes sorted by start, stably.
fn sort_fix_list(fs: Vec<Vec<TextEdit>>) -> (r: Vec<Vec<TextEdit>>)
    ensures
        fixes_view(r@) == sort_fixes(fixes_view(fs@)),
{
    let ghost fv = fixes_view(fs@);
    let n = fs.len();
    let mut out: Vec<Vec<TextEdit>> = Vec::new();
    let mut rest = fs;
    let mut i: usize = 0;
    assert(fv.take(0) =~= Seq::<Seq<EditView>>::empty());
    assert(fv.skip(0) =~= fv);
    while rest.len() > 0
        invariant
            i + rest@.len() == fv.len(),
            fv.len() == n,
            fixes_view(rest@) == fv.skip(i as int),
            fixes_view(out@) == sort_fixes(fv.take(i as int)),
        decreases rest@.len(),
    {
        let ghost rv = rest@;
        let f = rest.remove(0);
        assert(fixes_view(rest@) =~= fv.skip(i + 1)) by {
            assert(rest@ =~= rv.drop_first());
            assert(fixes_view(rest@) =~= fixes_view(rv).drop_first());
            assert(fv.skip(i as int).drop_first() =~= fv.skip(i + 1));
        }
        assert(edits_view(f@) == fv[i as int]) by {
            assert(fixes_view(rv)[0] == fv.skip(i as int)[0]);
        }
        let key = fix_start(&f);
        let mut p: usize = out.len();
        let ghost ov = fixes_view(out@);
        while p > 0 && !key_le_exec(fix_start(&out[p - 1]), key)
            invariant
                p <= out@.len(),
                ov == fixes_view(out@),
                match key {
                    Some(st) => fix_key(edits_view(f@)) == Some(st as int),
                    None => fix_key(edits_view(f@)) is None,
                },
                forall|k: int| p <= k < ov.len() ==> !key_le(fix_key(#[trigger] ov[k]), fix_key(edits_view(f@))),
            decreases p,
        {
            assert(ov[p - 1] == edits_view(out@[p - 1]@));
            p -= 1;
        }
        proof {
            if p > 0 {
                assert(ov[p - 1] == edits_view(out@[p - 1]@));
            }
            lemma_insert_sorted(ov, edits_view(f@), p as int);
            assert(fv.take(i + 1).drop_last() =~= fv.take(i as int));
        }
        out.insert(p, f);
        assert(fixes_view(out@) =~= ov.insert(p as int, edits_view(f@)));
        i += 1;
    }
    assert(fv.take(i as int) =~= fv);
    out
}

/// The source with the applied fixes of one pass (see `shake_pass`).
fn splice(src: &[char], fixes: &Vec<Vec<TextEdit>>) -> (r: Option<Vec<char>>)
    requires
        forall|i: int| 0 <= i < fixes@.len() ==> edits_wf(#[trigger] fixes_view(fixes@)[i], src@.len() as int),
    ensures
        match r {
            Some(v) => {
                let st = splice_all(src@, fixes_view(fixes@));
                st.1 matches Some(p) && v@ == st.0 + src@.skip(p)
            },
            None => splice_all(src@, fixes_view(fixes@)).1 is None,
        },
{
    let ghost fv = fixes_view(fixes@);
    let mut out: Vec<char> = Vec::new();
    let mut last: Option<usize> = None;
    let mut i: usize = 0;
    while i < fixes.len()
        invariant
            i <= fixes@.len(),
            fv == fixes_view(fixes@),
            forall|j: int| 0 <= j < fixes@.len() ==> edits_wf(#[trigger] fv[j], src@.len() as int),
            splice_all(src@, fv.take(i as int)) == (
                out@,
                match last {
                    Some(p) => Some(p as int),
                    None => None,
                },
            ),
            last matches Some(p) ==> p <= src@.len(),
        decreases fixes@.len() - i,
    {
        assert(fv.take(i + 1).drop_last() =~= fv.take(i as int));
        let f = &fixes[i];
        let ghost fe = edits_view(f@);
        assert(fv[i as int] == fe);
        assert(edits_wf(fe, src@.len() as int));
        if f.len() > 0 {
            let skip = match last {
                Some(p) => p >= f[0].start,
                None => false,
            };
            if !skip {
                let ghost st0 = (out@, match last { Some(p) => Some(p as int), None => None::<int> });
                let mut j: usize = 0;
                assert(fe.take(0) =~= Seq::<EditView>::empty());
                while j < f.len()
                    invariant
                        j <= f@.len(),
                        f@.len() > 0,
                        fe == edits_view(f@),
                        edits_wf(fe, src@.len() as int),
                        splice_edits(src@, st0, fe.take(j as int)) == (
                            out@,
                            match last {
                                Some(p) => Some(p as int),
                                None => None,
                            },
                        ),
                        last matches Some(p) ==> p <= src@.len(),
                        j == 0 ==> (last matches Some(p) ==> p < fe[0].0),
                        j > 0 ==> last == Some(f@[j - 1].end),
                    decreases f@.len() - j,
                {
                    assert(fe.take(j + 1).drop_last() =~= fe.take(j as int));
                    let e = &f[j];
                    assert(fe[j as int] == (e.start as int, e.end as int, e.content@));
                    let from: usize = match last {
                        Some(p) => p,
                        None => 0,
                    };
                    assert(from <= e.start) by {
                        if j > 0 {
                            assert(fe[j - 1].1 <= fe[j as int].0);
                        }
                    }
                    let mut k: usize = from;
                    let ghost o0 = out@;
                    while k < e.start
                        invariant
                            from <= k <= e.start <= src@.len(),
                            out@ == o0 + src@.subrange(from as int, k as int),
                        decreases e.start - k,
                    {
                        out.push(src[k]);
                        k += 1;
                        assert(out@ =~= o0 + src@.subrange(from as int, k as int));
                    }
                    let c = to_chars(e.content.as_str());
                    crate::text::push_all(&mut out, c.as_slice());
                    last = Some(e.end);
                    j += 1;
                }
                assert(fe.take(j as int) =~= fe);
            }
        }
        i += 1;
    }
    assert(fv.take(i as int) =~= fv);
    match last {
        None => None,
        Some(p) => {
            let mut k: usize = p;
            let ghost o0 = out@;
            while k < src.len()
                invariant
                    p <= k <= src@.len(),
                    out@ == o0 + src@.subrange(p as int, k as int),
                decreases src@.len() - k,
            {
                out.push(src[k]);
                k += 1;
                assert(out@ =~= o0 + src@.subrange(p as int, k as int));
            }
            assert(src@.subrange(p as int, src@.len() as int) =~= src@.skip(p as int));
            Some(out)
        },
    }
}

proof fn lemma_selected_wf(diags: Seq<LintFix>, prot: Seq<(usize, usize)>, len: int)
    requires
        fixes_wf(diags, len),
    ensures
        forall|i: int| 0 <= i < selected(diags, prot).len() ==> edits_wf(#[trigger] selected(diags, prot)[i], len),
    decreases diags.len(),
{
    if diags.len() > 0 {
        let init = diags.drop_last();
        assert(fixes_wf(init, len)) by {
            assert forall|i: int| 0 <= i < init.len() implies match #[trigger] init[i].fix {
                Some((_, es)) => edits_wf(edits_view(es@), len),
                None => true,
            } by {
                assert(init[i] == diags[i]);
            }
        }
        lemma_selected_wf(init, prot, len);
        let prev = selected(init, prot);
        let d = diags[diags.len() - 1];
        assert(match d.fix {
            Some((_, es)) => edits_wf(edits_view(es@), len),
            None => true,
        });
        match d.fix {
            Some((_, es)) => {
                if applies(d, prot) {
                    let t = prev.push(edits_view(es@));
                    assert forall|i: int| 0 <= i < t.len() implies edits_wf(#[trigger] t[i], len) by {
                        if i < prev.len() {
                            assert(t[i] == prev[i]);
                        }
                    }
                }
            },
            None => {},
        }
    }
}

proof fn lemma_insert_sorted_wf(s: Seq<Seq<EditView>>, f: Seq<EditView>, len: int)
    requires
        forall|i: int| 0 <= i < s.len() ==> edits_wf(#[trigger] s[i], len),
        edits_wf(f, len),
    ensures
        forall|i: int| 0 <= i < insert_sorted(s, f).len() ==> edits_wf(#[trigger] insert_sorted(s, f)[i], len),
        insert_sorted(s, f).len() == s.len() + 1,
    decreases s.len(),
{
    if !(s.len() == 0 || key_le(fix_key(s.last()), fix_key(f))) {
        lemma_insert_sorted_wf(s.drop_last(), f, len);
        let t = insert_sorted(s.drop_last(), f);
        assert forall|i: int| 0 <= i < t.push(s.last()).len() implies edits_wf(#[trigger] t.push(s.last())[i], len) by {
            if i < t.len() {
                assert(t.push(s.last())[i] == t[i]);
            } else {
                assert(t.push(s.last())[i] == s[s.len() - 1]);
            }
        }
    } else {
        assert forall|i: int| 0 <= i < s.push(f).len() implies edits_wf(#[trigger] s.push(f)[i], len) by {
            if i < s.len() {
                assert(s.push(f)[i] == s[i]);
            }
        }
    }
}

proof fn lemma_sort_wf(fs: Seq<Seq<EditView>>, len: int)
    requires
        forall|i: int| 0 <= i < fs.len() ==> edits_wf(#[trigger] fs[i], len),
    ensures
        forall|i: int| 0 <= i < sort_fixes(fs).len() ==> edits_wf(#[trigger] sort_fixes(fs)[i], len),
    decreases fs.len(),
{
    if fs.len() > 0 {
        assert forall|i: int| 0 <= i < fs.drop_last().len() implies edits_wf(#[trigger] fs.drop_last()[i], len) by {
            assert(fs.drop_last()[i] == fs[i]);
        }
        lemma_sort_wf(fs.drop_last(), len);
        assert(edits_wf(fs[fs.len() - 1], len));
        lemma_insert_sorted_wf(sort_fixes(fs.drop_last()), fs.last(), len);
    }
}

/// One pass of tree shaking over `source` (see `shake_pass`): `None` when
/// no fix applies.
pub fn shake_pass_exec(source: &str, diags: &[LintFix], protected: &[(usize, usize)]) -> (r: Option<String>)
    requires
        fixes_wf(diags@, source@.len() as int),
    ensures
        match r {
            Some(s) => shake_pass(source@, diags@, protected@) == Some(s@),
            None => shake_pass(source@, diags@, protected@) is None,
        },
{
    let src = to_chars(source);
    let sel = select_fixes(diags, protected);
    proof {
        lemma_selected_wf(diags@, protected@, source@.len() as int);
        lemma_sort_wf(fixes_view(sel@), source@.len() as int);
    }
    let sorted = sort_fix_list(sel);
    match splice(src.as_slice(), &sorted) {
        Some(v) => Some(from_chars(v.as_slice())),
        None => None,
    }
}

/// What the linter made of the current source: it does not parse, or its
/// unused-import diagnostics with the import statements and comments of
/// the source (for the `# bundle` directives).
#[derive(Debug)]
pub enum LintOutcome {
    /// The source does not parse.
    InvalidSyntax,
    /// The diagnostics, the import statements and the comments.
    Checked(Vec<LintFix>, Vec<ImportSpan>, Vec<CommentInfo>),
}

/// The most passes tree shaking makes.
pub const MAX_SHAKE_PASSES: usize = 100;

/// Tree shaking of one source, pass by pass.
#[derive(Debug)]
pub struct TreeShaker {
    original: String,
    current: String,
    passes: usize,
}

impl TreeShaker {
    /// The source as given.
    pub closed spec fn original_view(self) -> Seq<char> {
        self.original@
    }

    /// The source after the passes so far.
    pub closed spec fn current_view(self) -> Seq<char> {
        self.current@
    }

    /// The passes made so far.
    pub closed spec fn passes_view(self) -> int {
        self.passes as int
    }

    /// Starts tree shaking `source`.
    pub fn new(source: &str) -> (r: Self)
        ensures
            r.original_view() == source@,
            r.current_view() == source@,
            r.passes_view() == 0,
    {
        TreeShaker { original: string_of(source), current: string_of(source), passes: 0 }
    }

    /// The source to lint next.
    pub fn current(&self) -> (r: &str)
        ensures
            r@ == self.current_view(),
    {
        self.current.as_str()
    }

    /// Takes what the linter made of the current source. The result is the
    /// final source once known: the original when the current source does
    /// not parse, the current source when no fix applies, or the source
    /// after the hundredth pass; otherwise the pass's result becomes the
    /// current source.
    pub fn feed(&mut self, outcome: LintOutcome) -> (r: Option<String>)
        requires
            0 <= old(self).passes_view() < MAX_SHAKE_PASSES,
            outcome matches LintOutcome::Checked(d, _, _) ==> fixes_wf(d@, old(self).current_view().len() as int),
        ensures
            final(self).original_view() == old(self).original_view(),
            final(self).passes_view() < MAX_SHAKE_PASSES,
            final(self).passes_view() >= 0,
            match outcome {
                LintOutcome::InvalidSyntax => r matches Some(s) && s@ == old(self).original_view(),
                LintOutcome::Checked(d, imports, comments) => match shake_pass(
                    old(self).current_view(),
                    d@,
                    protected_spec(imports@, comments@),
                ) {
                    None => r matches Some(s) && s@ == old(self).current_view(),
                    Some(next) => if old(self).passes_view() + 1 == MAX_SHAKE_PASSES {
                        r matches Some(s) && s@ == next
                    } else {
                        r is None && final(self).current_view() == next && final(self).passes_view()
                            == old(self).passes_view() + 1
                    },
                },
            },
    {
        match outcome {
            LintOutcome::InvalidSyntax => Some(self.original.clone()),
            LintOutcome::Checked(diags, imports, comments) => {
                let prot = protected_ranges(imports.as_slice(), comments.as_slice());
                match shake_pass_exec(self.current.as_str(), diags.as_slice(), prot.as_slice()) {
                    None => Some(self.current.clone()),
                    Some(next) => {
                        if self.passes + 1 == MAX_SHAKE_PASSES {
                            Some(next)
                        } else {
                            self.passes = self.passes + 1;
                            self.current = next;
                            None
                        }
                    },
                }
            },
        }
    }
}


/// Imports marked `# bundle` are kept: the fix of a diagnostic that lies
/// within a protected span is never applied.
pub proof fn lemma_protected_fix_skipped(diags: Seq<LintFix>, d: LintFix, prot: Seq<(usize, usize)>)
    requires
        d.range matches Some(r) && is_protected(r, prot),
    ensures
        selected(diags.push(d), prot) == selected(diags, prot),
{
    assert(diags.push(d).drop_last() =~= diags);
}


/// Whether edit `k` lies within `len` characters and ends before the next.
spec fn edit_in_order(ev: Seq<EditView>, k: int, len: int) -> bool {
    0 <= ev[k].0 <= ev[k].1 <= len && (k + 1 < ev.len() ==> ev[k].1 <= ev[k + 1].0)
}

/// Whether the edits of a fix lie in order within a text of `len`
/// characters (see `edits_wf`).
fn edits_in_order(es: &[TextEdit], len: usize) -> (r: bool)
    ensures
        r == edits_wf(edits_view(es@), len as int),
{
    let ghost ev = edits_view(es@);
    let mut j: usize = 0;
    while j < es.len()
        invariant
            j <= es@.len(),
            ev == edits_view(es@),
            ev.len() == es@.len(),
            forall|k: int| 0 <= k < j ==> #[trigger] edit_in_order(ev, k, len as int),
        decreases es@.len() - j,
    {
        let bad = !(es[j].start <= es[j].end && es[j].end <= len) || (j + 1 < es.len() && es[j].end
            > es[j + 1].start);
        if bad {
            assert(!edit_in_order(ev, j as int, len as int));
            assert(!edits_wf(ev, len as int)) by {
                if edits_wf(ev, len as int) {
                    let jj = j as int;
                    assert(0 <= ev[jj].0 <= ev[jj].1 <= len && (jj + 1 < ev.len() ==> ev[jj].1
                        <= ev[jj + 1].0));
                }
            }
            return false;
        }
        assert(edit_in_order(ev, j as int, len as int));
        j += 1;
    }
    assert forall|k: int| 0 <= k < ev.len() implies 0 <= #[trigger] ev[k].0 <= ev[k].1 <= len && (k
        + 1 < ev.len() ==> ev[k].1 <= ev[k + 1].0) by {
        assert(edit_in_order(ev, k, len as int));
    }
    true
}

/// Whether every fix's edits lie in order within a text of `len`
/// characters (see `fixes_wf`): what `TreeShaker::feed` needs of the
/// linter's fixes.
pub fn fixes_in_order(fixes: &[LintFix], len: usize) -> (r: bool)
    ensures
        r == fixes_wf(fixes@, len as int),
{
    let mut i: usize = 0;
    while i < fixes.len()
        invariant
            i <= fixes@.len(),
            forall|k: int|
                0 <= k < i ==> match #[trigger] fixes@[k].fix {
                    Some((_, es)) => edits_wf(edits_view(es@), len as int),
                    None => true,
                },
        decreases fixes@.len() - i,
    {
        match &fixes[i].fix {
            Some((_, es)) => {
                if !edits_in_order(es.as_slice(), len) {
                    return false;
                }
            },
            None => {},
        }
        i += 1;
    }
    true
}

} // verus!
