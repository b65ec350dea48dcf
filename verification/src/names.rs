//! Dotted module names: package of a module, relative import resolution,
//! external-package prefixes, guaranteed built-ins, `.py` extensions and
//! paths inside ZIP archives.
use vstd::prelude::*;
use crate::text::{
    ascii_lower, chars_eq_str, first_piece, first_piece_chars, from_chars, join_chars, join_seq,
    push_all, push_str, replace_char, replace_chars, res_view, split_chars, split_seq, string_of,
    strings_contain, strip, strip_chars, sviews, to_ascii_lower, to_chars, trim, trim_str, vviews,
};

verus! {

broadcast use vstd::string::group_string_axioms;

// ---------------------------------------------------------------------------
// Specifications
// ---------------------------------------------------------------------------

/// What `{:?}` prints for a string slice (std's `Debug` for `str`).
pub uninterp spec fn str_debug(s: Seq<char>) -> Seq<char>;

/// The package that holds a module: the module itself for a package,
/// otherwise everything before its last dot (empty for a top-level module).
pub open spec fn package_name_of(name: Seq<char>, is_package: bool) -> Seq<char> {
    if is_package {
        name
    } else {
        let parts = split_seq(name, '.');
        if parts.len() <= 1 {
            Seq::<char>::empty()
        } else {
            join_seq(parts.drop_last(), '.')
        }
    }
}

/// The absolute name that `from <level dots><raw> import ...` denotes inside
/// `cur`, or the reason it has none.
pub open spec fn relative_module_name(
    cur: Seq<char>,
    is_package: bool,
    raw: Seq<char>,
    level: nat,
) -> Result<Seq<char>, Seq<char>> {
    if level == 0 {
        Ok(trim(raw))
    } else {
        let pkg = package_name_of(cur, is_package);
        if pkg.len() == 0 {
            Err("relative import requires a package context"@)
        } else {
            let parts = split_seq(pkg, '.');
            if level > parts.len() {
                Err("relative import goes beyond top-level package"@)
            } else {
                let base = join_seq(parts.take(parts.len() - (level - 1)), '.');
                let name = trim(raw);
                if name.len() == 0 {
                    Ok(base)
                } else {
                    Ok(base.push('.') + name)
                }
            }
        }
    }
}

/// The package that holds a module is the module itself for a package;
/// for any other module with a dot in its name, it is the name up to its
/// last dot (the rest holds no dot); a top-level module has none.
pub proof fn lemma_package_of_module(cur: Seq<char>, is_package: bool)
    ensures
        is_package ==> package_name_of(cur, is_package) == cur,
        !is_package && package_name_of(cur, is_package).len() > 0 ==> ({
            let p = package_name_of(cur, is_package);
            &&& cur.len() > p.len()
            &&& cur.take(p.len() + 1int) == p.push('.')
            &&& forall|i: int| p.len() < i < cur.len() ==> cur[i] != '.'
        }),
        !is_package && (forall|i: int| 0 <= i < cur.len() ==> cur[i] != '.') ==> package_name_of(
            cur,
            is_package,
        ).len() == 0,
{
    let parts = split_seq(cur, '.');
    crate::text::lemma_split_nonempty(cur, '.');
    crate::text::lemma_join_split(cur, '.');
    crate::text::lemma_split_pieces_free(cur, '.');
    if !is_package && parts.len() >= 2 {
        let init = parts.drop_last();
        assert(parts =~= init.push(parts.last()));
        crate::text::lemma_join_push(init, parts.last(), '.');
        let p = join_seq(init, '.');
        assert(cur == p.push('.') + parts.last());
        assert(cur.take(p.len() + 1int) =~= p.push('.'));
        assert forall|i: int| p.len() < i < cur.len() implies cur[i] != '.' by {
            assert(cur[i] == parts.last()[i - p.len() - 1]);
        }
    }
    if !is_package && (forall|i: int| 0 <= i < cur.len() ==> cur[i] != '.') {
        crate::text::lemma_split_free(cur, '.');
    }
}

/// Each leading dot beyond the first climbs exactly one package: with one
/// dot, `from . import` names the module's own package; resolving with one
/// dot more gives the previous base without its last component (the base
/// with that many dots is the longer one, made of the shorter, a dot and a
/// component holding no dot); and a name after the dots is appended to the
/// base with a dot.
pub proof fn lemma_relative_levels(cur: Seq<char>, is_package: bool, raw: Seq<char>, level: nat)
    requires
        level >= 1,
    ensures
        package_name_of(cur, is_package).len() > 0 ==> relative_module_name(
            cur,
            is_package,
            Seq::<char>::empty(),
            1,
        ) == Ok::<Seq<char>, Seq<char>>(package_name_of(cur, is_package)),
        relative_module_name(cur, is_package, Seq::<char>::empty(), level + 1) matches Ok(shorter)
            ==> relative_module_name(cur, is_package, Seq::<char>::empty(), level) matches Ok(longer)
            && longer.len() > shorter.len() && longer.take(shorter.len() + 1int) == shorter.push('.')
            && forall|i: int| shorter.len() < i < longer.len() ==> longer[i] != '.',
        trim(raw).len() > 0 ==> relative_module_name(cur, is_package, raw, level) == match relative_module_name(
            cur,
            is_package,
            Seq::<char>::empty(),
            level,
        ) {
            Ok(base) => Ok::<Seq<char>, Seq<char>>(base.push('.') + trim(raw)),
            Err(e) => Err(e),
        },
{
    let e = Seq::<char>::empty();
    assert(trim(e) =~= e) by {
        crate::text::lemma_trim_empty();
    }
    let pkg = package_name_of(cur, is_package);
    let parts = split_seq(pkg, '.');
    crate::text::lemma_split_nonempty(pkg, '.');
    if pkg.len() > 0 {
        crate::text::lemma_join_split(pkg, '.');
        assert(parts.take(parts.len() as int) =~= parts);
    }
    if pkg.len() > 0 && level + 1 <= parts.len() {
        let n2 = parts.len() - level;
        let t2 = parts.take(n2);
        let t1 = parts.take(n2 + 1);
        assert(t1 =~= t2.push(parts[n2]));
        crate::text::lemma_join_push(t2, parts[n2], '.');
        crate::text::lemma_split_pieces_free(pkg, '.');
        let shorter = join_seq(t2, '.');
        let longer = join_seq(t1, '.');
        assert(longer == shorter.push('.') + parts[n2]);
        assert(longer.take(shorter.len() + 1int) =~= shorter.push('.'));
        assert forall|i: int| shorter.len() < i < longer.len() implies longer[i] != '.' by {
            assert(longer[i] == parts[n2][i - shorter.len() - 1]);
        }
    }
}

proof fn lemma_leading_count_bound(s: Seq<char>, c: char)
    ensures
        leading_count(s, c) <= s.len(),
    decreases s.len(),
{
    if s.len() > 0 && s[0] == c {
        lemma_leading_count_bound(s.drop_first(), c);
    }
}

/// With `importlib.import_module(raw, package)`, one dot names the package
/// itself, and each further leading dot climbs exactly one package: the
/// name with one dot more is the previous one without its last component;
/// a name after the dots is appended to that base with a dot.
pub proof fn lemma_import_module_levels(pkg: Seq<char>, raw: Seq<char>)
    requires
        leading_count(raw, '.') >= 1,
    ensures
        pkg.len() > 0 ==> relative_name_with_package(pkg, seq!['.']) == Ok::<Seq<char>, Seq<char>>(pkg),
        raw.skip(leading_count(raw, '.') as int).len() == 0 ==> (relative_name_with_package(
            pkg,
            seq!['.'] + raw,
        ) matches Ok(shorter) ==> relative_name_with_package(pkg, raw) matches Ok(longer)
            && longer.len() > shorter.len() && longer.take(shorter.len() + 1int) == shorter.push('.')
            && forall|i: int| shorter.len() < i < longer.len() ==> longer[i] != '.'),
{
    let d = seq!['.'];
    assert(d.drop_first() =~= Seq::<char>::empty());
    assert(leading_count(Seq::<char>::empty(), '.') == 0);
    assert(d[0] == '.');
    assert(leading_count(d, '.') == 1);
    assert(d.skip(1) =~= Seq::<char>::empty());
    let parts = split_seq(pkg, '.');
    crate::text::lemma_split_nonempty(pkg, '.');
    if pkg.len() > 0 {
        crate::text::lemma_join_split(pkg, '.');
        assert(parts.take(parts.len() as int) =~= parts);
    }
    let l = leading_count(raw, '.');
    lemma_leading_count_bound(raw, '.');
    let raw2 = d + raw;
    assert(raw2.drop_first() =~= raw);
    assert(leading_count(raw2, '.') == l + 1);
    assert(raw2.skip(l + 1int) =~= raw.skip(l as int));
    if raw.skip(l as int).len() == 0 && pkg.len() > 0 && l + 1 <= parts.len() {
        let n2 = parts.len() - l;
        let t2 = parts.take(n2);
        let t1 = parts.take(n2 + 1);
        assert(t1 =~= t2.push(parts[n2]));
        crate::text::lemma_join_push(t2, parts[n2], '.');
        crate::text::lemma_split_pieces_free(pkg, '.');
        let shorter = join_seq(t2, '.');
        let longer = join_seq(t1, '.');
        assert(longer == shorter.push('.') + parts[n2]);
        assert(longer.take(shorter.len() + 1int) =~= shorter.push('.'));
        assert forall|i: int| shorter.len() < i < longer.len() implies longer[i] != '.' by {
            assert(longer[i] == parts[n2][i - shorter.len() - 1]);
        }
    }
}

/// The number of leading copies of `c` in `s`.
pub open spec fn leading_count(s: Seq<char>, c: char) -> nat
    decreases s.len(),
{
    if s.len() > 0 && s[0] == c {
        1 + leading_count(s.drop_first(), c)
    } else {
        0
    }
}

/// The absolute name that `importlib.import_module(raw, package)` denotes,
/// or the reason it has none.
pub open spec fn relative_name_with_package(pkg: Seq<char>, raw: Seq<char>) -> Result<
    Seq<char>,
    Seq<char>,
> {
    let level = leading_count(raw, '.');
    if level == 0 {
        Ok(raw)
    } else if pkg.len() == 0 {
        Err("relative import "@ + str_debug(raw) + " requires non-empty package context"@)
    } else {
        let tail = raw.skip(level as int);
        let parts = split_seq(pkg, '.');
        if level > parts.len() {
            Err(
                "relative import "@ + str_debug(raw) + " goes beyond top-level package "@
                    + str_debug(pkg),
            )
        } else {
            let base = join_seq(parts.take(parts.len() - (level - 1)), '.');
            if tail.len() == 0 {
                Ok(base)
            } else if base.len() == 0 {
                Ok(tail)
            } else {
                Ok(base.push('.') + tail)
            }
        }
    }
}

/// The top-level package named by one `--external` value: separators
/// become dots, surrounding dots go, and only the first component stays.
/// Empty when the value names nothing.
pub open spec fn external_prefix(raw: Seq<char>) -> Seq<char> {
    first_piece(strip(replace_char(replace_char(trim(raw), '\\', '.'), '/', '.'), '.'), '.')
}

/// The distinct, non-empty external prefixes, in order of first appearance.
pub open spec fn external_prefix_set(ps: Seq<Seq<char>>) -> Seq<Seq<char>>
    decreases ps.len(),
{
    if ps.len() == 0 {
        Seq::<Seq<char>>::empty()
    } else {
        let acc = external_prefix_set(ps.drop_last());
        let p = external_prefix(ps.last());
        if p.len() == 0 || acc.contains(p) {
            acc
        } else {
            acc.push(p)
        }
    }
}

/// Whether an import of `name` stays a runtime import because its
/// top-level package was marked external.
pub open spec fn is_external(name: Seq<char>, external: Seq<Seq<char>>) -> bool {
    external.contains(first_piece(name, '.'))
}

/// Whether `name` lies in a module that every interpreter provides.
pub open spec fn is_builtin_name(name: Seq<char>) -> bool {
    let f = first_piece(name, '.');
    f == "builtins"@ || f == "sys"@ || f == "_imp"@
}

/// The last piece that is neither empty nor `.`.
pub open spec fn last_normal_piece(pieces: Seq<Seq<char>>) -> Option<Seq<char>>
    decreases pieces.len(),
{
    if pieces.len() == 0 {
        None
    } else if pieces.last().len() == 0 || pieces.last() == "."@ {
        last_normal_piece(pieces.drop_last())
    } else {
        Some(pieces.last())
    }
}

/// `Path::file_name` for a `/`-separated path.
pub open spec fn path_file_name(path: Seq<char>) -> Option<Seq<char>> {
    match last_normal_piece(split_seq(path, '/')) {
        Some(x) => if x == ".."@ {
            None
        } else {
            Some(x)
        },
        None => None,
    }
}

/// The extension of a file name: what follows its last dot, unless that
/// dot starts the name or there is none.
pub open spec fn file_extension(name: Seq<char>) -> Option<Seq<char>> {
    let parts = split_seq(name, '.');
    if parts.len() <= 1 {
        None
    } else if join_seq(parts.drop_last(), '.').len() == 0 {
        None
    } else {
        Some(parts.last())
    }
}

/// Whether the file a path names has the extension `py`, in any case.
pub open spec fn has_py_ext(path: Seq<char>) -> bool {
    match path_file_name(path) {
        Some(n) => match file_extension(n) {
            Some(e) => e.len() == 2 && ascii_lower(e[0]) == 'p' && ascii_lower(e[1]) == 'y',
            None => false,
        },
        None => false,
    }
}

/// The path of `name` inside a ZIP archive under `prefix`.
pub open spec fn zip_join(prefix: Seq<char>, name: Seq<char>) -> Seq<char> {
    if prefix.len() == 0 {
        name
    } else {
        prefix.push('/') + name
    }
}

// ---------------------------------------------------------------------------
// Executable functions
// ---------------------------------------------------------------------------

/// `{:?}` of a string slice (std's `Debug` for `str`): quoted and escaped.
/// Claimed: the result is `str_debug` of the argument, a function of it alone.
#[verifier::external_body]
pub(crate) fn debug_str(s: &str) -> (r: String)
    ensures
        r@ == str_debug(s@),
{
    format!("{:?}", s)
}

fn drop_last_piece(parts: Vec<Vec<char>>) -> (r: Vec<Vec<char>>)
    requires
        parts@.len() >= 1,
    ensures
        vviews(r@) == vviews(parts@).drop_last(),
{
    let ghost before = parts@;
    let mut parts = parts;
    parts.pop();
    assert(vviews(parts@) =~= vviews(before).drop_last()) by {
        assert(parts@ =~= before.drop_last());
    }
    parts
}

fn take_pieces(parts: &[Vec<char>], n: usize) -> (r: Vec<Vec<char>>)
    requires
        n <= parts@.len(),
    ensures
        vviews(r@) == vviews(parts@).take(n as int),
{
    let mut out: Vec<Vec<char>> = Vec::new();
    let mut i: usize = 0;
    while i < n
        invariant
            i <= n <= parts@.len(),
            vviews(out@) == vviews(parts@).take(i as int),
        decreases n - i,
    {
        let mut piece: Vec<char> = Vec::new();
        push_all(&mut piece, parts[i].as_slice());
        assert(piece@ =~= parts@[i as int]@);
        let ghost before = out@;
        out.push(piece);
        assert(vviews(out@) =~= vviews(before).push(parts@[i as int]@));
        assert(vviews(parts@).take(i + 1) =~= vviews(parts@).take(i as int).push(parts@[i as int]@));
        i += 1;
    }
    out
}

/// The package that holds a module: the module itself for a package,
/// otherwise the dotted name before its last component.
pub fn module_package_name(module_name: &str, is_package: bool) -> (r: String)
    ensures
        r@ == package_name_of(module_name@, is_package),
{
    if is_package {
        return string_of(module_name);
    }
    let chars = to_chars(module_name);
    let parts = split_chars(chars.as_slice(), '.');
    if parts.len() <= 1 {
        return String::new();
    }
    let init = drop_last_piece(parts);
    let joined = join_chars(init.as_slice(), '.');
    from_chars(joined.as_slice())
}

/// Resolves the target of a relative import (`level` leading dots) made
/// from `current_module`.
///
/// Fails when the importing module has no package or when the dots climb
/// above its top-level package.
pub fn resolve_relative_module_name(
    current_module: &str,
    current_is_package: bool,
    raw_module: &str,
    level: usize,
) -> (r: Result<String, String>)
    ensures
        res_view(r) == relative_module_name(
            current_module@,
            current_is_package,
            raw_module@,
            level as nat,
        ),
{
    if level == 0 {
        let t = trim_str(raw_module);
        return Ok(from_chars(t.as_slice()));
    }
    let package_name = module_package_name(current_module, current_is_package);
    if package_name.as_str().is_empty() {
        return Err(string_of("relative import requires a package context"));
    }
    let pkg = to_chars(package_name.as_str());
    let parts = split_chars(pkg.as_slice(), '.');
    if level > parts.len() {
        return Err(string_of("relative import goes beyond top-level package"));
    }
    let kept = take_pieces(parts.as_slice(), parts.len() - (level - 1));
    let mut base = join_chars(kept.as_slice(), '.');
    let name = trim_str(raw_module);
    if name.len() == 0 {
        return Ok(from_chars(base.as_slice()));
    }
    base.push('.');
    push_all(&mut base, name.as_slice());
    Ok(from_chars(base.as_slice()))
}

/// Resolves the name given to `importlib.import_module(name, package)`:
/// leading dots climb from `package_name`.
pub fn resolve_relative_name_with_package_arg(package_name: &str, raw_name: &str) -> (r: Result<
    String,
    String,
>)
    ensures
        res_view(r) == relative_name_with_package(package_name@, raw_name@),
{
    let raw = to_chars(raw_name);
    let mut level: usize = 0;
    assert(raw@.skip(0) =~= raw@);
    while level < raw.len() && raw[level] == '.'
        invariant
            level <= raw@.len(),
            forall|k: int| 0 <= k < level ==> raw@[k] == '.',
            leading_count(raw@, '.') == level + leading_count(raw@.skip(level as int), '.'),
        decreases raw@.len() - level,
    {
        proof {
            let t = raw@.skip(level as int);
            assert(t.drop_first() =~= raw@.skip(level + 1));
        }
        level += 1;
    }
    assert(leading_count(raw@.skip(level as int), '.') == 0);
    if level == 0 {
        return Ok(string_of(raw_name));
    }
    if package_name.is_empty() {
        let mut msg = to_chars("relative import ");
        let d = debug_str(raw_name);
        push_str(&mut msg, d.as_str());
        push_str(&mut msg, " requires non-empty package context");
        return Err(from_chars(msg.as_slice()));
    }
    let mut tail: Vec<char> = Vec::new();
    let mut i: usize = level;
    while i < raw.len()
        invariant
            level <= i <= raw@.len(),
            tail@ == raw@.subrange(level as int, i as int),
        decreases raw@.len() - i,
    {
        tail.push(raw[i]);
        i += 1;
        assert(tail@ =~= raw@.subrange(level as int, i as int));
    }
    assert(tail@ =~= raw@.skip(level as int));
    let pkg = to_chars(package_name);
    let parts = split_chars(pkg.as_slice(), '.');
    if level > parts.len() {
        let mut msg = to_chars("relative import ");
        let d = debug_str(raw_name);
        push_str(&mut msg, d.as_str());
        push_str(&mut msg, " goes beyond top-level package ");
        let d2 = debug_str(package_name);
        push_str(&mut msg, d2.as_str());
        return Err(from_chars(msg.as_slice()));
    }
    let kept = take_pieces(parts.as_slice(), parts.len() - (level - 1));
    let mut base = join_chars(kept.as_slice(), '.');
    if tail.len() == 0 {
        return Ok(from_chars(base.as_slice()));
    }
    if base.len() == 0 {
        return Ok(from_chars(tail.as_slice()));
    }
    base.push('.');
    push_all(&mut base, tail.as_slice());
    Ok(from_chars(base.as_slice()))
}

/// The top-level package named by one external value (empty when none).
pub fn external_prefix_of(raw: &str) -> (r: Vec<char>)
    ensures
        r@ == external_prefix(raw@),
{
    let t = trim_str(raw);
    let a = replace_chars(t.as_slice(), '\\', '.');
    let b = replace_chars(a.as_slice(), '/', '.');
    let c = strip_chars(b.as_slice(), '.');
    first_piece_chars(c.as_slice(), '.')
}

/// Normalizes `--external` values to the distinct top-level package names
/// they denote, in order of first appearance.
pub fn normalize_external_prefixes(prefixes: &[String]) -> (r: Vec<String>)
    ensures
        sviews(r@) == external_prefix_set(sviews(prefixes@)),
{
    let mut out: Vec<String> = Vec::new();
    let mut i: usize = 0;
    while i < prefixes.len()
        invariant
            i <= prefixes@.len(),
            sviews(out@) == external_prefix_set(sviews(prefixes@).take(i as int)),
        decreases prefixes@.len() - i,
    {
        let p = external_prefix_of(prefixes[i].as_str());
        assert(sviews(prefixes@).take(i + 1).drop_last() =~= sviews(prefixes@).take(i as int));
        if p.len() != 0 && !strings_contain(out.as_slice(), p.as_slice()) {
            let ghost before = out@;
            out.push(from_chars(p.as_slice()));
            assert(sviews(out@) =~= sviews(before).push(p@)) by {
                assert(out@ =~= before.push(out@.last()));
            }
        }
        i += 1;
    }
    assert(sviews(prefixes@).take(prefixes@.len() as int) =~= sviews(prefixes@));
    out
}

/// Whether an import of `module_name` stays a runtime import because its
/// top-level package is one of the `external` names.
pub fn should_preserve_external_import(module_name: &str, external: &[String]) -> (r: bool)
    ensures
        r == is_external(module_name@, sviews(external@)),
{
    if external.len() == 0 {
        assert(sviews(external@) =~= Seq::<Seq<char>>::empty());
        return false;
    }
    let chars = to_chars(module_name);
    let first = first_piece_chars(chars.as_slice(), '.');
    strings_contain(external, first.as_slice())
}

/// Whether `module_name` lies in `builtins`, `sys` or `_imp`, which every
/// interpreter provides and which are never bundled.
pub fn is_guaranteed_builtin(module_name: &str) -> (r: bool)
    ensures
        r == is_builtin_name(module_name@),
{
    let chars = to_chars(module_name);
    let first = first_piece_chars(chars.as_slice(), '.');
    chars_eq_str(first.as_slice(), "builtins") || chars_eq_str(first.as_slice(), "sys")
        || chars_eq_str(first.as_slice(), "_imp")
}

/// `Path::file_name` for a `/`-separated path.
pub fn file_name_of(path: &[char]) -> (r: Option<Vec<char>>)
    ensures
        match r {
            Some(v) => path_file_name(path@) == Some(v@),
            None => path_file_name(path@) is None,
        },
{
    let pieces = split_chars(path, '/');
    let mut k: usize = pieces.len();
    assert(vviews(pieces@).take(k as int) =~= vviews(pieces@));
    while k > 0 && (pieces[k - 1].len() == 0 || chars_eq_str(pieces[k - 1].as_slice(), "."))
        invariant
            k <= pieces@.len(),
            last_normal_piece(vviews(pieces@).take(k as int)) == last_normal_piece(
                vviews(pieces@),
            ),
        decreases k,
    {
        assert(vviews(pieces@).take(k as int).drop_last() =~= vviews(pieces@).take(k - 1));
        k -= 1;
    }
    if k == 0 {
        assert(vviews(pieces@).take(0) =~= Seq::<Seq<char>>::empty());
        return None;
    }
    assert(vviews(pieces@).take(k as int).last() == pieces@[k - 1]@);
    if chars_eq_str(pieces[k - 1].as_slice(), "..") {
        return None;
    }
    let mut out: Vec<char> = Vec::new();
    push_all(&mut out, pieces[k - 1].as_slice());
    Some(out)
}

/// The extension of a file name (after its last dot, unless that dot
/// starts the name).
pub fn extension_of(name: &[char]) -> (r: Option<Vec<char>>)
    ensures
        match r {
            Some(v) => file_extension(name@) == Some(v@),
            None => file_extension(name@) is None,
        },
{
    let parts = split_chars(name, '.');
    if parts.len() <= 1 {
        return None;
    }
    let mut last: Vec<char> = Vec::new();
    push_all(&mut last, parts[parts.len() - 1].as_slice());
    let init = drop_last_piece(parts);
    let before = join_chars(init.as_slice(), '.');
    if before.len() == 0 {
        return None;
    }
    Some(last)
}

/// Whether the file a path names ends in `.py`, compared without regard to
/// ASCII case.
pub fn has_py_extension(path: &str) -> (r: bool)
    ensures
        r == has_py_ext(path@),
{
    let chars = to_chars(path);
    match file_name_of(chars.as_slice()) {
        Some(name) => match extension_of(name.as_slice()) {
            Some(e) => e.len() == 2 && to_ascii_lower(e[0]) == 'p' && to_ascii_lower(e[1]) == 'y',
            None => false,
        },
        None => false,
    }
}

/// The path of `name` inside a ZIP archive under `prefix`.
pub fn join_zip_path(prefix: &str, name: &str) -> (r: String)
    ensures
        r@ == zip_join(prefix@, name@),
{
    if prefix.is_empty() {
        return string_of(name);
    }
    let mut out = to_chars(prefix);
    out.push('/');
    push_str(&mut out, name);
    from_chars(out.as_slice())
}

} // verus!
