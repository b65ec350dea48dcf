//! License texts of bundled third-party packages: which files hold them,
//! the fields read from `METADATA` and `RECORD`, which module each package
//! is attached to, and the comment headers written into the bundle.
use vstd::prelude::*;
use crate::codegen::{HeaderGroup, headers_for};
use crate::model::{ModuleData, ModuleMap};
use crate::names::{path_file_name, file_name_of};
use crate::text::{
    ascii_lower, chars_eq, from_chars, push_all, push_str, replace_char, replace_chars, split_chars,
    split_seq, sviews, strings_contain, to_chars, trim, trim_chars, vviews,
};

verus! {

broadcast use vstd::string::group_string_axioms;

/// A license text found for a bundled package.
#[derive(Debug)]
pub struct LicenseComment {
    /// The package's name from its `METADATA`.
    pub package_name: String,
    /// The package's version from its `METADATA`.
    pub version: String,
    /// The license text.
    pub text: String,
    /// The first bundled module (by name) that the package installed.
    pub target_module: String,
}

/// What was read from one `*.dist-info` directory.
#[derive(Debug)]
pub struct DistInfo {
    /// The `METADATA` file, when it could be read.
    pub metadata: Option<String>,
    /// The `RECORD` file, when it could be read.
    pub record: Option<String>,
    /// The text of the first license file among the record's candidates
    /// that exists, when one does and could be read.
    pub license: Option<String>,
}

/// The `*.dist-info` directories found in one search root.
#[derive(Debug)]
pub struct SitePackages {
    /// The search root.
    pub sys_path: String,
    /// Its `*.dist-info` directories, in directory order.
    pub dist_infos: Vec<DistInfo>,
}

// ---------------------------------------------------------------------------
// Specifications
// ---------------------------------------------------------------------------

/// Whether `s` starts with `p`.
pub open spec fn starts_with(s: Seq<char>, p: Seq<char>) -> bool {
    p.len() <= s.len() && s.take(p.len() as int) == p
}

/// Whether a file name marks a license text: it starts with `license`,
/// `licence` or `authors`, or is `notice` or starts with `notice.`, in any
/// case. (Lower-casing with full Unicode rules agrees with ASCII rules on
/// these words: no other character lower-cases to a sequence that starts
/// them.)
pub open spec fn license_name(name: Seq<char>) -> bool {
    let l = name.map_values(|c: char| ascii_lower(c));
    ||| starts_with(l, "license"@)
    ||| starts_with(l, "licence"@)
    ||| l == "notice"@
    ||| starts_with(l, "notice."@)
    ||| starts_with(l, "authors"@)
}

/// `s` without surrounding `\n` and `\r`.
pub open spec fn strip_newlines(s: Seq<char>) -> Seq<char>
    decreases s.len(),
{
    if s.len() > 0 && (s[0] == '\n' || s[0] == '\r') {
        strip_newlines(s.drop_first())
    } else if s.len() > 0 && (s.last() == '\n' || s.last() == '\r') {
        strip_newlines(s.drop_last())
    } else {
        s
    }
}

/// A line without one trailing `\r`.
pub open spec fn strip_cr(line: Seq<char>) -> Seq<char> {
    if line.len() > 0 && line.last() == '\r' {
        line.drop_last()
    } else {
        line
    }
}

/// `str::lines`: the pieces between `\n`s, each without a trailing `\r`;
/// a final `\n` ends the last line rather than starting an empty one.
pub open spec fn lines_of(s: Seq<char>) -> Seq<Seq<char>> {
    let pieces = split_seq(s, '\n');
    let kept = if s.len() == 0 {
        Seq::<Seq<char>>::empty()
    } else if s.last() == '\n' {
        pieces.drop_last()
    } else {
        pieces
    };
    kept.map_values(|l: Seq<char>| strip_cr(l))
}

/// The lines, each with `# ` before and `\n` after.
pub open spec fn commented(lines: Seq<Seq<char>>) -> Seq<char>
    decreases lines.len(),
{
    if lines.len() == 0 {
        Seq::<char>::empty()
    } else {
        commented(lines.drop_last()) + "# "@ + lines.last() + "\n"@
    }
}

/// The header written for one license comment.
pub open spec fn license_header(c: LicenseComment) -> Seq<char> {
    "# ===== "@ + c.package_name@ + " "@ + c.version@ + " =====\n#\n"@ + commented(
        lines_of(strip_newlines(c.text@)),
    ) + "\n"@
}

/// The headers of the comments attached to `name`, in order.
pub open spec fn headers_of(cs: Seq<LicenseComment>, name: Seq<char>) -> Seq<Seq<char>>
    decreases cs.len(),
{
    if cs.len() == 0 {
        Seq::<Seq<char>>::empty()
    } else if cs.last().target_module@ == name {
        headers_of(cs.drop_last(), name).push(license_header(cs.last()))
    } else {
        headers_of(cs.drop_last(), name)
    }
}

/// Whether no two groups are for the same module.
pub open spec fn groups_distinct(h: Seq<HeaderGroup>) -> bool {
    forall|i: int, j: int| 0 <= i < j < h.len() ==> h[i].module@ != h[j].module@
}

/// The fields of a `METADATA` file read so far, line by line: the last
/// `Name: ` and `Version: ` values seen, stopping once both are known.
pub open spec fn scan_metadata(
    lines: Seq<Seq<char>>,
    name: Option<Seq<char>>,
    version: Option<Seq<char>>,
) -> (Option<Seq<char>>, Option<Seq<char>>)
    decreases lines.len(),
{
    if lines.len() == 0 {
        (name, version)
    } else {
        let line = lines[0];
        let (n, v) = if starts_with(line, "Name: "@) {
            (Some(trim(line.skip(6))), version)
        } else if starts_with(line, "Version: "@) {
            (name, Some(trim(line.skip(9))))
        } else {
            (name, version)
        };
        if n is Some && v is Some {
            (n, v)
        } else {
            scan_metadata(lines.drop_first(), n, v)
        }
    }
}

/// The package name and version of a `METADATA` file, when it has both.
pub open spec fn metadata_of(content: Seq<char>) -> Option<(Seq<char>, Seq<char>)> {
    match scan_metadata(lines_of(content), None, None) {
        (Some(n), Some(v)) => Some((n, v)),
        _ => None,
    }
}

/// The file paths of `RECORD` lines: the first comma-separated field of
/// each non-blank line, trimmed, when not empty.
pub open spec fn record_paths_of(lines: Seq<Seq<char>>) -> Seq<Seq<char>>
    decreases lines.len(),
{
    if lines.len() == 0 {
        Seq::<Seq<char>>::empty()
    } else {
        let acc = record_paths_of(lines.drop_last());
        let line = trim(lines.last());
        let field = trim(split_seq(line, ',')[0]);
        if line.len() == 0 || field.len() == 0 {
            acc
        } else {
            acc.push(field)
        }
    }
}

/// The record paths that may hold a license text, in order, up to the
/// first path that names no file.
pub open spec fn license_candidates_of(paths: Seq<Seq<char>>) -> Seq<Seq<char>>
    decreases paths.len(),
{
    if paths.len() == 0 {
        Seq::<Seq<char>>::empty()
    } else {
        match path_file_name(paths[0]) {
            None => Seq::<Seq<char>>::empty(),
            Some(n) => if license_name(n) {
                seq![paths[0]] + license_candidates_of(paths.drop_first())
            } else {
                license_candidates_of(paths.drop_first())
            },
        }
    }
}

/// The components of a `/`-separated path: a root marker for an absolute
/// path, then the pieces that are neither empty nor `.`.
pub open spec fn normal_pieces(pieces: Seq<Seq<char>>) -> Seq<Seq<char>>
    decreases pieces.len(),
{
    if pieces.len() == 0 {
        Seq::<Seq<char>>::empty()
    } else if pieces.last().len() == 0 || pieces.last() == "."@ {
        normal_pieces(pieces.drop_last())
    } else {
        normal_pieces(pieces.drop_last()).push(pieces.last())
    }
}

/// The components of a path.
pub open spec fn path_components(p: Seq<char>) -> Seq<Seq<char>> {
    let root = if p.len() > 0 && p[0] == '/' {
        seq![seq!['/']]
    } else {
        Seq::<Seq<char>>::empty()
    };
    root + normal_pieces(split_seq(p, '/'))
}

/// `Path::strip_prefix` followed by `/`-joining: the rest of `path` below
/// `base`, when `base`'s components start `path`'s.
pub open spec fn strip_path_prefix(path: Seq<char>, base: Seq<char>) -> Option<Seq<char>> {
    let pc = path_components(path);
    let bc = path_components(base);
    if bc.len() <= pc.len() && pc.take(bc.len() as int) == bc {
        Some(crate::text::join_seq(pc.skip(bc.len() as int), '/'))
    } else {
        None
    }
}

/// The first module (in map order) whose file, relative to `sys_path` and
/// with `/` separators, is among the record's paths.
pub open spec fn earliest_match(
    sys_path: Seq<char>,
    record: Seq<Seq<char>>,
    mods: Seq<ModuleData>,
) -> Option<Seq<char>>
    decreases mods.len(),
{
    if mods.len() == 0 {
        None
    } else {
        match strip_path_prefix(mods[0].file_path@, sys_path) {
            Some(rel) if record.contains(replace_char(rel, '\\', '/')) => Some(mods[0].name@),
            _ => earliest_match(sys_path, record, mods.drop_first()),
        }
    }
}

/// A license comment as text: package, version, license text, module.
pub type CommentView = (Seq<char>, Seq<char>, Seq<char>, Seq<char>);

/// The view of a license comment.
pub open spec fn comment_view(c: LicenseComment) -> CommentView {
    (c.package_name@, c.version@, c.text@, c.target_module@)
}

/// Walks the dist-info directories of the search roots in order and keeps
/// a comment for each package seen for the first time that has a record,
/// installed a bundled module and has a license text.
pub open spec fn scan_dists(
    roots: Seq<SitePackages>,
    r: int,
    d: int,
    mods: Seq<ModuleData>,
    seen: Seq<Seq<char>>,
    found: Seq<CommentView>,
) -> Seq<CommentView>
    decreases roots.len() - r, (if r < roots.len() {
        roots[r].dist_infos@.len() - d
    } else {
        0
    }),
{
    if r >= roots.len() || r < 0 {
        found
    } else if d >= roots[r].dist_infos@.len() || d < 0 {
        scan_dists(roots, r + 1, 0, mods, seen, found)
    } else {
        let di = roots[r].dist_infos@[d];
        let meta = match di.metadata {
            Some(m) => metadata_of(m@),
            None => None,
        };
        match meta {
            None => scan_dists(roots, r, d + 1, mods, seen, found),
            Some((name, version)) => if seen.contains(name) {
                scan_dists(roots, r, d + 1, mods, seen, found)
            } else {
                let seen2 = seen.push(name);
                match di.record {
                    None => scan_dists(roots, r, d + 1, mods, seen2, found),
                    Some(rec) => {
                        let paths = record_paths_of(lines_of(rec@));
                        match earliest_match(roots[r].sys_path@, paths, mods) {
                            None => scan_dists(roots, r, d + 1, mods, seen2, found),
                            Some(target) => match di.license {
                                None => scan_dists(roots, r, d + 1, mods, seen2, found),
                                Some(text) => scan_dists(
                                    roots,
                                    r,
                                    d + 1,
                                    mods,
                                    seen2,
                                    found.push((name, version, text@, target)),
                                ),
                            },
                        }
                    },
                }
            },
        }
    }
}

/// The comments attached to the given module names, grouped by module in
/// the order of the names and kept in found order within a module.
pub open spec fn ordered_by_module(cs: Seq<CommentView>, names: Seq<Seq<char>>) -> Seq<
    CommentView,
>
    decreases names.len(),
{
    if names.len() == 0 {
        Seq::<CommentView>::empty()
    } else {
        ordered_by_module(cs, names.drop_last()) + comments_for(cs, names.last())
    }
}

/// The comments attached to `name`, in order.
pub open spec fn comments_for(cs: Seq<CommentView>, name: Seq<char>) -> Seq<CommentView>
    decreases cs.len(),
{
    if cs.len() == 0 {
        Seq::<CommentView>::empty()
    } else if cs.last().3 == name {
        comments_for(cs.drop_last(), name).push(cs.last())
    } else {
        comments_for(cs.drop_last(), name)
    }
}

/// The names of the modules.
pub open spec fn module_names(mods: Seq<ModuleData>) -> Seq<Seq<char>> {
    mods.map_values(|m: ModuleData| m.name@)
}

// ---------------------------------------------------------------------------
// Executable functions
// ---------------------------------------------------------------------------

fn starts_with_str(s: &[char], p: &str) -> (r: bool)
    ensures
        r == starts_with(s@, p@),
{
    let pv = to_chars(p);
    if pv.len() > s.len() {
        return false;
    }
    let mut head: Vec<char> = Vec::new();
    let mut i: usize = 0;
    while i < pv.len()
        invariant
            i <= pv@.len() <= s@.len(),
            head@ == s@.take(i as int),
        decreases pv@.len() - i,
    {
        head.push(s[i]);
        i += 1;
        assert(head@ =~= s@.take(i as int));
    }
    chars_eq(head.as_slice(), pv.as_slice())
}

/// Whether a file name marks a license text (`LICENSE*`, `LICENCE*`,
/// `NOTICE`, `NOTICE.*`, `AUTHORS*`, in any case).
pub fn is_license_filename(name: &str) -> (r: bool)
    ensures
        r == license_name(name@),
{
    let n = to_chars(name);
    let mut l: Vec<char> = Vec::new();
    let mut i: usize = 0;
    while i < n.len()
        invariant
            i <= n@.len(),
            l@ == n@.take(i as int).map_values(|c: char| ascii_lower(c)),
        decreases n@.len() - i,
    {
        l.push(crate::text::to_ascii_lower(n[i]));
        i += 1;
        assert(l@ =~= n@.take(i as int).map_values(|c: char| ascii_lower(c)));
    }
    assert(n@.take(n@.len() as int) =~= n@);
    starts_with_str(l.as_slice(), "license") || starts_with_str(l.as_slice(), "licence")
        || crate::text::chars_eq_str(l.as_slice(), "notice") || starts_with_str(
        l.as_slice(),
        "notice.",
    ) || starts_with_str(l.as_slice(), "authors")
}

fn strip_newline_chars(s: &[char]) -> (r: Vec<char>)
    ensures
        r@ == strip_newlines(s@),
{
    let mut i: usize = 0;
    let mut j: usize = s.len();
    assert(s@.subrange(0, s@.len() as int) =~= s@);
    while i < j && (s[i] == '\n' || s[i] == '\r' || s[j - 1] == '\n' || s[j - 1] == '\r')
        invariant
            i <= j <= s@.len(),
            strip_newlines(s@) == strip_newlines(s@.subrange(i as int, j as int)),
        decreases j - i,
    {
        let ghost t = s@.subrange(i as int, j as int);
        if s[i] == '\n' || s[i] == '\r' {
            assert(t.drop_first() =~= s@.subrange(i + 1, j as int));
            i += 1;
        } else {
            assert(t.drop_last() =~= s@.subrange(i as int, j - 1));
            j -= 1;
        }
    }
    let mut out: Vec<char> = Vec::new();
    let mut k = i;
    while k < j
        invariant
            i <= k <= j <= s@.len(),
            out@ == s@.subrange(i as int, k as int),
        decreases j - k,
    {
        out.push(s[k]);
        k += 1;
        assert(out@ =~= s@.subrange(i as int, k as int));
    }
    proof {
        assert(s@.subrange(0, s@.len() as int) =~= s@);
    }
    out
}

/// `str::lines` of a text.
pub fn lines(s: &[char]) -> (r: Vec<Vec<char>>)
    ensures
        vviews(r@) == lines_of(s@),
{
    let pieces = split_chars(s, '\n');
    proof {
        crate::text::lemma_split_nonempty(s@, '\n');
    }
    let n: usize = if s.len() == 0 {
        0
    } else if s[s.len() - 1] == '\n' {
        pieces.len() - 1
    } else {
        pieces.len()
    };
    let ghost kept = if s@.len() == 0 {
        Seq::<Seq<char>>::empty()
    } else if s@.last() == '\n' {
        vviews(pieces@).drop_last()
    } else {
        vviews(pieces@)
    };
    assert(kept.len() == n);
    let mut out: Vec<Vec<char>> = Vec::new();
    let mut i: usize = 0;
    while i < n
        invariant
            i <= n <= pieces@.len(),
            kept.len() == n,
            forall|k: int| 0 <= k < n ==> kept[k] == pieces@[k]@,
            vviews(out@) == kept.take(i as int).map_values(|l: Seq<char>| strip_cr(l)),
        decreases n - i,
    {
        let p = &pieces[i];
        let mut line: Vec<char> = Vec::new();
        let m = if p.len() > 0 && p[p.len() - 1] == '\r' {
            p.len() - 1
        } else {
            p.len()
        };
        let mut k: usize = 0;
        while k < m
            invariant
                k <= m <= p@.len(),
                line@ == p@.take(k as int),
            decreases m - k,
        {
            line.push(p[k]);
            k += 1;
            assert(line@ =~= p@.take(k as int));
        }
        assert(line@ =~= strip_cr(p@));
        let ghost before = out@;
        out.push(line);
        i += 1;
        assert(vviews(out@) =~= kept.take(i as int).map_values(|l: Seq<char>| strip_cr(l))) by {
            assert(vviews(out@) =~= vviews(before).push(strip_cr(pieces@[i - 1]@)));
        }
    }
    assert(kept.take(n as int) =~= kept);
    out
}

/// The comment header written for one license text: a title line with
/// package and version, then every line of the text commented out.
pub fn license_header_text(c: &LicenseComment) -> (r: String)
    ensures
        r@ == license_header(*c),
{
    let mut out = to_chars("# ===== ");
    push_str(&mut out, c.package_name.as_str());
    push_str(&mut out, " ");
    push_str(&mut out, c.version.as_str());
    push_str(&mut out, " =====\n#\n");
    let text = to_chars(c.text.as_str());
    let stripped = strip_newline_chars(text.as_slice());
    let ls = lines(stripped.as_slice());
    let ghost base = out@;
    let mut i: usize = 0;
    while i < ls.len()
        invariant
            i <= ls@.len(),
            out@ == base + commented(vviews(ls@).take(i as int)),
        decreases ls@.len() - i,
    {
        assert(vviews(ls@).take(i + 1).drop_last() =~= vviews(ls@).take(i as int));
        push_str(&mut out, "# ");
        push_all(&mut out, ls[i].as_slice());
        push_str(&mut out, "\n");
        i += 1;
        assert(out@ =~= base + commented(vviews(ls@).take(i as int)));
    }
    assert(vviews(ls@).take(ls@.len() as int) =~= vviews(ls@));
    push_str(&mut out, "\n");
    from_chars(out.as_slice())
}

fn group_is(groups: &Vec<HeaderGroup>, g: usize, name: &[char]) -> (r: bool)
    requires
        g < groups@.len(),
    ensures
        r == (groups@[g as int].module@ == name@),
{
    let m = to_chars(groups[g].module.as_str());
    chars_eq(m.as_slice(), name)
}

proof fn lemma_headers_for_unique(h: Seq<HeaderGroup>, k: int, name: Seq<char>)
    requires
        groups_distinct(h),
        0 <= k < h.len(),
        h[k].module@ == name,
    ensures
        headers_for(h, name) == sviews(h[k].headers@),
    decreases k,
{
    if k > 0 {
        assert(h[0].module@ != name);
        let t = h.drop_first();
        assert(groups_distinct(t));
        lemma_headers_for_unique(t, k - 1, name);
    }
}

proof fn lemma_headers_for_absent(h: Seq<HeaderGroup>, name: Seq<char>)
    requires
        forall|k: int| 0 <= k < h.len() ==> h[k].module@ != name,
    ensures
        headers_for(h, name) == Seq::<Seq<char>>::empty(),
    decreases h.len(),
{
    if h.len() > 0 {
        lemma_headers_for_absent(h.drop_first(), name);
    }
}

/// Groups the headers of license comments by the module they precede.
/// For every module, the groups hold exactly the headers of the comments
/// attached to it, in order; no module has two groups.
pub fn format_license_headers(comments: &[LicenseComment]) -> (r: Vec<HeaderGroup>)
    ensures
        groups_distinct(r@),
        forall|name: Seq<char>| headers_for(r@, name) == headers_of(comments@, name),
{
    let mut groups: Vec<HeaderGroup> = Vec::new();
    let mut i: usize = 0;
    while i < comments.len()
        invariant
            i <= comments@.len(),
            groups_distinct(groups@),
            forall|name: Seq<char>|
                #![trigger headers_of(comments@.take(i as int), name)]
                headers_for(groups@, name) == headers_of(comments@.take(i as int), name),
        decreases comments@.len() - i,
    {
        let c = &comments[i];
        let header = license_header_text(c);
        let target = to_chars(c.target_module.as_str());
        let mut g: usize = 0;
        while g < groups.len() && !group_is(&groups, g, target.as_slice())
            invariant
                g <= groups@.len(),
                forall|k: int| 0 <= k < g ==> groups@[k].module@ != target@,
            decreases groups@.len() - g,
        {
            g += 1;
        }
        let ghost old_groups = groups@;
        let ghost prefix = comments@.take(i as int);
        assert(comments@.take(i + 1).drop_last() =~= prefix);
        assert(comments@.take(i + 1).last() == *c);
        if g < groups.len() {
            let ghost hk = groups@[g as int];
            let mut grp = groups.remove(g);
            grp.headers.push(header);
            groups.insert(g, grp);
            assert(groups@ =~= old_groups.update(
                g as int,
                HeaderGroup { module: hk.module, headers: groups@[g as int].headers },
            ));
            assert(groups_distinct(groups@)) by {
                assert forall|a: int, b: int| 0 <= a < b < groups@.len() implies groups@[a].module@
                    != groups@[b].module@ by {
                    assert(groups@[a].module == old_groups[a].module);
                    assert(groups@[b].module == old_groups[b].module);
                }
            }
            assert forall|name: Seq<char>|
                #![trigger headers_of(comments@.take(i + 1), name)]
                headers_for(groups@, name) == headers_of(comments@.take(i + 1), name) by {
                if name == target@ {
                    lemma_headers_for_unique(groups@, g as int, name);
                    lemma_headers_for_unique(old_groups, g as int, name);
                    assert(sviews(groups@[g as int].headers@) =~= sviews(hk.headers@).push(
                        header@,
                    ));
                    assert(headers_of(prefix, name) == headers_for(old_groups, name));
                } else {
                    let ghost hf = headers_for(old_groups, name);
                    assert(headers_of(prefix, name) == hf);
                    if exists|k: int| 0 <= k < groups@.len() && groups@[k].module@ == name {
                        let k = choose|k: int| 0 <= k < groups@.len() && groups@[k].module@ == name;
                        lemma_headers_for_unique(groups@, k, name);
                        lemma_headers_for_unique(old_groups, k, name);
                        assert(groups@[k] == old_groups[k]);
                    } else {
                        lemma_headers_for_absent(groups@, name);
                        assert forall|k: int| 0 <= k < old_groups.len() implies old_groups[k].module@
                            != name by {
                            assert(groups@[k].module == old_groups[k].module);
                        }
                        lemma_headers_for_absent(old_groups, name);
                    }
                }
            }
        } else {
            let mut hs: Vec<String> = Vec::new();
            hs.push(header);
            groups.push(HeaderGroup { module: from_chars(target.as_slice()), headers: hs });
            assert(groups_distinct(groups@));
            assert forall|name: Seq<char>|
                #![trigger headers_of(comments@.take(i + 1), name)]
                headers_for(groups@, name) == headers_of(comments@.take(i + 1), name) by {
                let ghost hf = headers_for(old_groups, name);
                assert(headers_of(prefix, name) == hf);
                if name == target@ {
                    lemma_headers_for_absent(old_groups, name);
                    lemma_headers_for_unique(groups@, g as int, name);
                    assert(sviews(groups@[g as int].headers@) =~= seq![header@]);
                    assert(Seq::<Seq<char>>::empty().push(header@) =~= seq![header@]);
                } else if exists|k: int| 0 <= k < groups@.len() && groups@[k].module@ == name {
                    let k = choose|k: int| 0 <= k < groups@.len() && groups@[k].module@ == name;
                    lemma_headers_for_unique(groups@, k, name);
                    lemma_headers_for_unique(old_groups, k, name);
                } else {
                    lemma_headers_for_absent(groups@, name);
                    assert forall|k: int| 0 <= k < old_groups.len() implies old_groups[k].module@
                        != name by {
                        assert(groups@[k] == old_groups[k]);
                    }
                    lemma_headers_for_absent(old_groups, name);
                }
            }
        }
        i += 1;
    }
    assert(comments@.take(comments@.len() as int) =~= comments@);
    groups
}

fn clone_chars_of(s: &String) -> (r: String)
    ensures
        r@ == s@,
{
    s.clone()
}

/// The package name and version declared by a `METADATA` file (its last
/// `Name: ` and `Version: ` lines before both are known), when it has both.
pub fn read_metadata(content: &str) -> (r: Option<(String, String)>)
    ensures
        match r {
            Some((n, v)) => metadata_of(content@) == Some((n@, v@)),
            None => metadata_of(content@) is None,
        },
{
    let text = to_chars(content);
    let ls = lines(text.as_slice());
    let ghost all = vviews(ls@);
    let mut name: Option<Vec<char>> = None;
    let mut version: Option<Vec<char>> = None;
    let mut i: usize = 0;
    assert(all.skip(0) =~= all);
    while i < ls.len()
        invariant
            i <= ls@.len(),
            all == vviews(ls@),
            all == lines_of(content@),
            !(name is Some && version is Some),
            scan_metadata(all, None, None) == scan_metadata(
                all.skip(i as int),
                match name {
                    Some(v) => Some(v@),
                    None => None,
                },
                match version {
                    Some(v) => Some(v@),
                    None => None,
                },
            ),
        decreases ls@.len() - i,
    {
        let line = &ls[i];
        assert(all.skip(i as int)[0] == line@);
        assert(all.skip(i as int).drop_first() =~= all.skip(i + 1));
        proof {
            reveal_strlit("Name: ");
            reveal_strlit("Version: ");
        }
        if starts_with_str(line.as_slice(), "Name: ") {
            let rest = tail_from(line.as_slice(), 6);
            name = Some(trim_chars(rest.as_slice()));
        } else if starts_with_str(line.as_slice(), "Version: ") {
            let rest = tail_from(line.as_slice(), 9);
            version = Some(trim_chars(rest.as_slice()));
        }
        i += 1;
        if name.is_some() && version.is_some() {
            let n = name.unwrap();
            let v = version.unwrap();
            return Some((from_chars(n.as_slice()), from_chars(v.as_slice())));
        }
    }
    None
}

fn tail_from(s: &[char], k: usize) -> (r: Vec<char>)
    requires
        k <= s@.len(),
    ensures
        r@ == s@.skip(k as int),
{
    let mut out: Vec<char> = Vec::new();
    let mut i = k;
    while i < s.len()
        invariant
            k <= i <= s@.len(),
            out@ == s@.subrange(k as int, i as int),
        decreases s@.len() - i,
    {
        out.push(s[i]);
        i += 1;
        assert(out@ =~= s@.subrange(k as int, i as int));
    }
    assert(out@ =~= s@.skip(k as int));
    out
}

/// The file paths listed in a `RECORD` file: the first comma-separated
/// field of each non-blank line, trimmed, when not empty.
pub fn read_record(content: &str) -> (r: Vec<String>)
    ensures
        sviews(r@) == record_paths_of(lines_of(content@)),
{
    let text = to_chars(content);
    let ls = lines(text.as_slice());
    let ghost all = vviews(ls@);
    let mut out: Vec<String> = Vec::new();
    let mut i: usize = 0;
    while i < ls.len()
        invariant
            i <= ls@.len(),
            all == vviews(ls@),
            sviews(out@) == record_paths_of(all.take(i as int)),
        decreases ls@.len() - i,
    {
        assert(all.take(i + 1).drop_last() =~= all.take(i as int));
        assert(all.take(i + 1).last() == ls@[i as int]@);
        let line = trim_chars(ls[i].as_slice());
        let fields = split_chars(line.as_slice(), ',');
        proof {
            crate::text::lemma_split_nonempty(line@, ',');
        }
        let field = trim_chars(fields[0].as_slice());
        if line.len() != 0 && field.len() != 0 {
            let ghost before = out@;
            out.push(from_chars(field.as_slice()));
            assert(sviews(out@) =~= sviews(before).push(field@));
        }
        i += 1;
    }
    assert(all.take(ls@.len() as int) =~= all);
    out
}

/// The record paths that may hold a license text, in order: those whose
/// file name marks a license, up to the first path that names no file.
/// The text is that of the first candidate that is an existing file.
pub fn license_text_candidates(record_paths: &[String]) -> (r: Vec<String>)
    ensures
        sviews(r@) == license_candidates_of(sviews(record_paths@)),
{
    let ghost all = sviews(record_paths@);
    let mut out: Vec<String> = Vec::new();
    let mut i: usize = 0;
    assert(all.skip(0) =~= all);
    while i < record_paths.len()
        invariant
            i <= record_paths@.len(),
            all == sviews(record_paths@),
            license_candidates_of(all) == sviews(out@) + license_candidates_of(all.skip(i as int)),
        decreases record_paths@.len() - i,
    {
        let p = to_chars(record_paths[i].as_str());
        assert(all.skip(i as int)[0] == p@);
        assert(all.skip(i as int).drop_first() =~= all.skip(i + 1));
        match file_name_of(p.as_slice()) {
            None => {
                assert(sviews(out@) + Seq::<Seq<char>>::empty() =~= sviews(out@));
                return out;
            },
            Some(n) => {
                let ns = from_chars(n.as_slice());
                if is_license_filename(ns.as_str()) {
                    let ghost before = out@;
                    out.push(clone_chars_of(&record_paths[i]));
                    assert(sviews(out@) =~= sviews(before).push(p@));
                    assert(seq![p@] + license_candidates_of(all.skip(i + 1)) =~= seq![p@].add(
                        license_candidates_of(all.skip(i + 1)),
                    ));
                    assert(sviews(before) + (seq![p@] + license_candidates_of(all.skip(i + 1)))
                        =~= sviews(out@) + license_candidates_of(all.skip(i + 1)));
                }
            },
        }
        i += 1;
    }
    assert(all.skip(i as int) =~= Seq::<Seq<char>>::empty());
    assert(sviews(out@) + Seq::<Seq<char>>::empty() =~= sviews(out@));
    out
}

pub(crate) fn components(p: &[char]) -> (r: Vec<Vec<char>>)
    ensures
        vviews(r@) == path_components(p@),
{
    let pieces = split_chars(p, '/');
    let mut out: Vec<Vec<char>> = Vec::new();
    if p.len() > 0 && p[0] == '/' {
        let mut root: Vec<char> = Vec::new();
        root.push('/');
        out.push(root);
        assert(vviews(out@) =~= seq![seq!['/']]);
    } else {
        assert(vviews(out@) =~= Seq::<Seq<char>>::empty());
    }
    let ghost root = vviews(out@);
    let mut i: usize = 0;
    while i < pieces.len()
        invariant
            i <= pieces@.len(),
            vviews(out@) == root + normal_pieces(vviews(pieces@).take(i as int)),
        decreases pieces@.len() - i,
    {
        assert(vviews(pieces@).take(i + 1).drop_last() =~= vviews(pieces@).take(i as int));
        assert(vviews(pieces@).take(i + 1).last() == pieces@[i as int]@);
        if !(pieces[i].len() == 0 || crate::text::chars_eq_str(pieces[i].as_slice(), ".")) {
            let mut c: Vec<char> = Vec::new();
            push_all(&mut c, pieces[i].as_slice());
            let ghost before = out@;
            out.push(c);
            assert(vviews(out@) =~= vviews(before).push(pieces@[i as int]@));
        }
        i += 1;
    }
    assert(vviews(pieces@).take(pieces@.len() as int) =~= vviews(pieces@));
    out
}

/// `Path::strip_prefix` followed by `/`-joining of the rest.
pub fn strip_path_prefix_chars(path: &[char], base: &[char]) -> (r: Option<Vec<char>>)
    ensures
        match r {
            Some(v) => strip_path_prefix(path@, base@) == Some(v@),
            None => strip_path_prefix(path@, base@) is None,
        },
{
    let pc = components(path);
    let bc = components(base);
    if bc.len() > pc.len() {
        return None;
    }
    let mut i: usize = 0;
    while i < bc.len()
        invariant
            i <= bc@.len() <= pc@.len(),
            vviews(pc@) == path_components(path@),
            vviews(bc@) == path_components(base@),
            forall|k: int| 0 <= k < i ==> pc@[k]@ == bc@[k]@,
        decreases bc@.len() - i,
    {
        if !chars_eq(pc[i].as_slice(), bc[i].as_slice()) {
            assert(vviews(pc@).take(bc@.len() as int)[i as int] != vviews(bc@)[i as int]);
            return None;
        }
        i += 1;
    }
    assert(vviews(pc@).take(bc@.len() as int) =~= vviews(bc@));
    let mut rest: Vec<Vec<char>> = Vec::new();
    let mut k = bc.len();
    while k < pc.len()
        invariant
            bc@.len() <= k <= pc@.len(),
            vviews(rest@) == vviews(pc@).subrange(bc@.len() as int, k as int),
        decreases pc@.len() - k,
    {
        let mut c: Vec<char> = Vec::new();
        push_all(&mut c, pc[k].as_slice());
        let ghost before = rest@;
        rest.push(c);
        k += 1;
        assert(vviews(rest@) =~= vviews(pc@).subrange(bc@.len() as int, k as int)) by {
            assert(vviews(rest@) =~= vviews(before).push(pc@[k - 1]@));
        }
    }
    assert(vviews(pc@).subrange(bc@.len() as int, pc@.len() as int) =~= vviews(pc@).skip(
        bc@.len() as int,
    ));
    Some(crate::text::join_chars(rest.as_slice(), '/'))
}

/// The first bundled module (in name order) whose file, relative to
/// `sys_path` and with `/` separators, is listed in the record.
pub fn find_earliest_match(sys_path: &str, record: &[String], modules: &ModuleMap) -> (r: Option<
    String,
>)
    ensures
        match r {
            Some(n) => earliest_match(sys_path@, sviews(record@), modules.modules()) == Some(n@),
            None => earliest_match(sys_path@, sviews(record@), modules.modules()) is None,
        },
{
    let mods = modules.entries();
    let base = to_chars(sys_path);
    let mut i: usize = 0;
    assert(mods@.skip(0) =~= mods@);
    while i < mods.len()
        invariant
            i <= mods@.len(),
            base@ == sys_path@,
            mods@ == modules.modules(),
            earliest_match(sys_path@, sviews(record@), mods@) == earliest_match(
                sys_path@,
                sviews(record@),
                mods@.skip(i as int),
            ),
        decreases mods@.len() - i,
    {
        assert(mods@.skip(i as int)[0] == mods@[i as int]);
        assert(mods@.skip(i as int).drop_first() =~= mods@.skip(i + 1));
        let fp = to_chars(mods[i].file_path.as_str());
        if let Some(rel) = strip_path_prefix_chars(fp.as_slice(), base.as_slice()) {
            let rel2 = replace_chars(rel.as_slice(), '\\', '/');
            if strings_contain(record, rel2.as_slice()) {
                return Some(clone_chars_of(&mods[i].name));
            }
        }
        i += 1;
    }
    None
}

fn clone_comment(c: &LicenseComment) -> (r: LicenseComment)
    ensures
        comment_view(r) == comment_view(*c),
{
    LicenseComment {
        package_name: c.package_name.clone(),
        version: c.version.clone(),
        text: c.text.clone(),
        target_module: c.target_module.clone(),
    }
}

/// The comment views of comments.
pub open spec fn comment_views(cs: Seq<LicenseComment>) -> Seq<CommentView> {
    cs.map_values(|c: LicenseComment| comment_view(c))
}

/// Collects the license texts of the third-party packages that installed
/// bundled modules: each package counts once (its first `METADATA` in
/// search order), and its text is attached to the first bundled module it
/// installed. The result is ordered by module name, then by discovery.
pub fn collect_license_comments(roots: &[SitePackages], modules: &ModuleMap) -> (r: Vec<
    LicenseComment,
>)
    ensures
        comment_views(r@) == ordered_by_module(
            scan_dists(
                roots@,
                0,
                0,
                modules.modules(),
                Seq::<Seq<char>>::empty(),
                Seq::<CommentView>::empty(),
            ),
            module_names(modules.modules()),
        ),
{
    let mut seen: Vec<String> = Vec::new();
    let mut found: Vec<LicenseComment> = Vec::new();
    let ghost mods = modules.modules();
    let ghost total = scan_dists(
        roots@,
        0,
        0,
        mods,
        Seq::<Seq<char>>::empty(),
        Seq::<CommentView>::empty(),
    );
    assert(sviews(seen@) =~= Seq::<Seq<char>>::empty());
    assert(comment_views(found@) =~= Seq::<CommentView>::empty());
    let mut r: usize = 0;
    while r < roots.len()
        invariant
            r <= roots@.len(),
            mods == modules.modules(),
            total == scan_dists(roots@, r as int, 0, mods, sviews(seen@), comment_views(found@)),
        decreases roots@.len() - r,
    {
        let dists = &roots[r].dist_infos;
        let mut d: usize = 0;
        while d < dists.len()
            invariant
                r < roots@.len(),
                d <= dists@.len(),
                dists == roots@[r as int].dist_infos,
                mods == modules.modules(),
                total == scan_dists(
                    roots@,
                    r as int,
                    d as int,
                    mods,
                    sviews(seen@),
                    comment_views(found@),
                ),
            decreases dists@.len() - d,
        {
            let di = &dists[d];
            let meta = match &di.metadata {
                Some(m) => read_metadata(m.as_str()),
                None => None,
            };
            if let Some((name, version)) = meta {
                let nc = to_chars(name.as_str());
                if !strings_contain(seen.as_slice(), nc.as_slice()) {
                    let ghost before = seen@;
                    seen.push(clone_chars_of(&name));
                    assert(sviews(seen@) =~= sviews(before).push(name@));
                    if let Some(rec) = &di.record {
                        let paths = read_record(rec.as_str());
                        let target = find_earliest_match(roots[r].sys_path.as_str(), paths.as_slice(), modules);
                        if let Some(t) = target {
                            if let Some(text) = &di.license {
                                let ghost fb = found@;
                                found.push(LicenseComment {
                                    package_name: name,
                                    version: version,
                                    text: clone_chars_of(text),
                                    target_module: t,
                                });
                                assert(comment_views(found@) =~= comment_views(fb).push(
                                    comment_view(found@.last()),
                                ));
                            }
                        }
                    }
                }
            }
            d += 1;
        }
        r += 1;
    }
    let mods_slice = modules.entries();
    let mut out: Vec<LicenseComment> = Vec::new();
    let ghost fv = comment_views(found@);
    assert(total == fv);
    let mut m: usize = 0;
    while m < mods_slice.len()
        invariant
            m <= mods_slice@.len(),
            mods_slice@ == mods,
            fv == comment_views(found@),
            comment_views(out@) == ordered_by_module(fv, module_names(mods).take(m as int)),
        decreases mods_slice@.len() - m,
    {
        assert(module_names(mods).take(m + 1).drop_last() =~= module_names(mods).take(m as int));
        assert(module_names(mods).take(m + 1).last() == mods[m as int].name@);
        let target = to_chars(mods_slice[m].name.as_str());
        let ghost base = comment_views(out@);
        let mut k: usize = 0;
        while k < found.len()
            invariant
                k <= found@.len(),
                fv == comment_views(found@),
                target@ == mods[m as int].name@,
                comment_views(out@) == base + comments_for(fv.take(k as int), target@),
            decreases found@.len() - k,
        {
            assert(fv.take(k + 1).drop_last() =~= fv.take(k as int));
            assert(fv.take(k + 1).last() == comment_view(found@[k as int]));
            let tk = to_chars(found[k].target_module.as_str());
            if chars_eq(tk.as_slice(), target.as_slice()) {
                let ghost before = out@;
                out.push(clone_comment(&found[k]));
                assert(comment_views(out@) =~= comment_views(before).push(
                    comment_view(found@[k as int]),
                ));
            }
            k += 1;
        }
        assert(fv.take(found@.len() as int) =~= fv);
        m += 1;
    }
    assert(module_names(mods).take(mods.len() as int) =~= module_names(mods));
    out
}


/// A path of a `RECORD` as found below its search root: whether it is a
/// regular file, and its text (invalid UTF-8 escaped) when it could be read.
#[derive(Debug)]
pub struct RecordFile {
    /// The path as the record lists it.
    pub path: String,
    /// Whether it names a regular file.
    pub is_file: bool,
    /// Its text, when it could be read.
    pub text: Option<String>,
}

/// The first entry for record path `p`.
pub open spec fn file_for(files: Seq<RecordFile>, p: Seq<char>) -> Option<RecordFile>
    decreases files.len(),
{
    if files.len() == 0 {
        None
    } else if files[0].path@ == p {
        Some(files[0])
    } else {
        file_for(files.drop_first(), p)
    }
}

/// The text of the first candidate that is a regular file (none when it
/// could not be read), or none when no candidate is.
pub open spec fn license_from(cands: Seq<Seq<char>>, files: Seq<RecordFile>) -> Option<Seq<char>>
    decreases cands.len(),
{
    if cands.len() == 0 {
        None
    } else {
        match file_for(files, cands[0]) {
            Some(f) => if f.is_file {
                match f.text {
                    Some(t) => Some(t@),
                    None => None,
                }
            } else {
                license_from(cands.drop_first(), files)
            },
            None => license_from(cands.drop_first(), files),
        }
    }
}

/// The entry for record path `p`.
fn find_record_file(files: &[RecordFile], p: &[char]) -> (r: Option<usize>)
    ensures
        match r {
            Some(k) => k < files@.len() && file_for(files@, p@) == Some(files@[k as int]),
            None => file_for(files@, p@) is None,
        },
{
    let mut i: usize = 0;
    assert(files@.skip(0) =~= files@);
    while i < files.len()
        invariant
            i <= files@.len(),
            file_for(files@, p@) == file_for(files@.skip(i as int), p@),
        decreases files@.len() - i,
    {
        assert(files@.skip(i as int).drop_first() =~= files@.skip(i + 1));
        assert(files@.skip(i as int)[0] == files@[i as int]);
        let c = to_chars(files[i].path.as_str());
        if crate::text::chars_eq(c.as_slice(), p) {
            return Some(i);
        }
        i += 1;
    }
    None
}

/// The license text of a package: the text of the first license candidate
/// of its record (see `license_text_candidates`) that is a regular file.
pub fn find_license_text(record_paths: &[String], files: &[RecordFile]) -> (r: Option<String>)
    ensures
        match r {
            Some(t) => license_from(license_candidates_of(sviews(record_paths@)), files@) == Some(t@),
            None => license_from(license_candidates_of(sviews(record_paths@)), files@) is None,
        },
{
    let cands = license_text_candidates(record_paths);
    let ghost cv = sviews(cands@);
    let mut i: usize = 0;
    assert(cv.skip(0) =~= cv);
    while i < cands.len()
        invariant
            i <= cands@.len(),
            cv == sviews(cands@),
            cv == license_candidates_of(sviews(record_paths@)),
            license_from(cv, files@) == license_from(cv.skip(i as int), files@),
        decreases cands@.len() - i,
    {
        assert(cv.skip(i as int).drop_first() =~= cv.skip(i + 1));
        assert(cv.skip(i as int)[0] == cands@[i as int]@);
        let c = to_chars(cands[i].as_str());
        match find_record_file(files, c.as_slice()) {
            Some(k) => {
                if files[k].is_file {
                    return match &files[k].text {
                        Some(t) => Some(t.clone()),
                        None => None,
                    };
                }
            },
            None => {},
        }
        i += 1;
    }
    None
}

} // verus!
