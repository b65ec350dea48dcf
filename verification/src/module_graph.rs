//! Module names from file paths, and the checks on the entry file.
use vstd::prelude::*;
use crate::licenses::{path_components, strip_path_prefix, strip_path_prefix_chars, components};
use crate::names::{path_file_name, file_extension, has_py_ext, file_name_of, extension_of, has_py_extension};
use crate::text::{
    ascii_lower, ascii_lower_seq, from_chars, join_chars, join_seq, push_all, push_str, split_chars,
    split_seq, string_of, to_ascii_lower, to_chars, trim, trim_str, vviews,
};

verus! {

broadcast use vstd::string::group_string_axioms;

/// The pieces of a relative path that name directories or files: all but
/// empty pieces, `.` and `..`.
pub open spec fn module_pieces(pieces: Seq<Seq<char>>) -> Seq<Seq<char>>
    decreases pieces.len(),
{
    if pieces.len() == 0 {
        Seq::<Seq<char>>::empty()
    } else {
        let prev = module_pieces(pieces.drop_last());
        let p = pieces.last();
        if p.len() == 0 || p == "."@ || p == ".."@ {
            prev
        } else {
            prev.push(p)
        }
    }
}

/// The dotted module name of a relative path: its named pieces joined with dots.
pub open spec fn rel_module_name(path: Seq<char>) -> Seq<char> {
    join_seq(module_pieces(split_seq(path, '/')), '.')
}

/// Whether the file is a package's `__init__.py`: named so exactly, or
/// named so up to ASCII case where the file system resolves
/// `__init__.py` beside it to the file itself (`init_canonical`).
pub open spec fn is_init_spec(file: Seq<char>, base: Seq<char>, init_canonical: Option<Seq<char>>) -> bool {
    base == "__init__.py"@ || (ascii_lower_seq(base) == "__init__.py"@ && init_canonical == Some(file))
}

/// Whether a name's extension is `py` in any ASCII case.
pub open spec fn is_py_ext(e: Seq<char>) -> bool {
    e.len() == 2 && ascii_lower(e[0]) == 'p' && ascii_lower(e[1]) == 'y'
}

/// The module name of a file below the project root, and whether it is a
/// package; or why it has none.
pub open spec fn module_name_spec(root: Seq<char>, file: Seq<char>, init_canonical: Option<Seq<char>>) -> Result<
    (Seq<char>, bool),
    Seq<char>,
> {
    match strip_path_prefix(file, root) {
        None => Err("entry file "@ + file + " must be inside project root "@ + root),
        Some(rel) => match path_file_name(rel) {
            None => Err("invalid module path for file "@ + file),
            Some(base) => {
                let pieces = module_pieces(split_seq(rel, '/'));
                if is_init_spec(file, base, init_canonical) {
                    Ok((join_seq(pieces.drop_last(), '.'), true))
                } else {
                    match file_extension(base) {
                        Some(e) => if is_py_ext(e) {
                            let stem = join_seq(split_seq(base, '.').drop_last(), '.');
                            let name = join_seq(pieces.drop_last().push(stem), '.');
                            if name.len() == 0 || name == "."@ {
                                Err("invalid module path for file "@ + file)
                            } else {
                                Ok((name, false))
                            }
                        } else {
                            Err("python module path must end with .py: "@ + file)
                        },
                        None => Err("python module path must end with .py: "@ + file),
                    }
                }
            },
        },
    }
}

/// `Path::parent`: the path without its last component; none for a root
/// or an empty path.
pub open spec fn parent_path(p: Seq<char>) -> Option<Seq<char>> {
    let pc = path_components(p);
    if pc.len() == 0 || (pc.len() == 1 && pc[0] == seq!['/']) {
        None
    } else {
        let rest = pc.drop_last();
        if rest.len() > 0 && rest[0] == seq!['/'] {
            Some(seq!['/'] + join_seq(rest.drop_first(), '/'))
        } else {
            Some(join_seq(rest, '/'))
        }
    }
}

/// The project root of an entry file (its directory), or why the entry
/// file cannot be bundled.
pub open spec fn entry_root_spec(abs_entry: Seq<char>, is_dir: bool) -> Result<Seq<char>, Seq<char>> {
    if is_dir {
        Err("entry file must be a Python file, got directory: "@ + abs_entry)
    } else if !has_py_ext(abs_entry) {
        Err("entry file must end with .py: "@ + abs_entry)
    } else {
        match parent_path(abs_entry) {
            Some(p) => Ok(p),
            None => Err("entry file must have parent directory"@),
        }
    }
}

/// The last named piece of a path is its file name.
proof fn lemma_file_name_piece(pieces: Seq<Seq<char>>)
    requires
        crate::names::last_normal_piece(pieces) matches Some(x) && x != ".."@,
    ensures
        module_pieces(pieces).len() >= 1,
        module_pieces(pieces).last() == crate::names::last_normal_piece(pieces)->0,
    decreases pieces.len(),
{
    let p = pieces.last();
    if p.len() == 0 || p == "."@ {
        lemma_file_name_piece(pieces.drop_last());
    }
}

/// The named pieces of a relative path.
fn named_pieces(path: &[char]) -> (r: Vec<Vec<char>>)
    ensures
        vviews(r@) == module_pieces(split_seq(path@, '/')),
{
    let pieces = split_chars(path, '/');
    let ghost pv = vviews(pieces@);
    let mut out: Vec<Vec<char>> = Vec::new();
    let mut i: usize = 0;
    assert(pv.take(0) =~= Seq::<Seq<char>>::empty());
    while i < pieces.len()
        invariant
            i <= pieces@.len(),
            pv == vviews(pieces@),
            vviews(out@) == module_pieces(pv.take(i as int)),
        decreases pieces@.len() - i,
    {
        assert(pv.take(i + 1).drop_last() =~= pv.take(i as int));
        assert(pv.take(i + 1).last() == pieces@[i as int]@);
        let p = &pieces[i];
        if !(p.len() == 0 || crate::text::chars_eq_str(p.as_slice(), ".")
            || crate::text::chars_eq_str(p.as_slice(), "..")) {
            let mut c: Vec<char> = Vec::new();
            push_all(&mut c, p.as_slice());
            let ghost before = out@;
            out.push(c);
            assert(vviews(out@) =~= vviews(before).push(p@));
        }
        i += 1;
    }
    assert(pv.take(pieces@.len() as int) =~= pv);
    out
}

/// The pieces without the last one.
fn without_last(v: &Vec<Vec<char>>) -> (r: Vec<Vec<char>>)
    requires
        v@.len() >= 1,
    ensures
        vviews(r@) == vviews(v@).drop_last(),
{
    let mut out: Vec<Vec<char>> = Vec::new();
    let mut i: usize = 0;
    while i < v.len() - 1
        invariant
            v@.len() >= 1,
            i <= v@.len() - 1,
            vviews(out@) == vviews(v@).take(i as int),
        decreases v@.len() - i,
    {
        let mut c: Vec<char> = Vec::new();
        push_all(&mut c, v[i].as_slice());
        let ghost before = out@;
        out.push(c);
        assert(vviews(out@) =~= vviews(before).push(v@[i as int]@));
        assert(vviews(v@).take(i + 1) =~= vviews(v@).take(i as int).push(v@[i as int]@));
        i += 1;
    }
    assert(vviews(v@).take(i as int) =~= vviews(v@).drop_last());
    out
}

/// The dotted module name of a relative path.
pub fn rel_components_to_module_name(path: &str) -> (r: String)
    ensures
        r@ == rel_module_name(path@),
{
    let pc = to_chars(path);
    let pieces = named_pieces(pc.as_slice());
    let joined = join_chars(pieces.as_slice(), '.');
    from_chars(joined.as_slice())
}

/// Whether a name equals `__init__.py` up to ASCII case.
fn is_init_name_ignoring_case(base: &[char]) -> (r: bool)
    ensures
        r == (ascii_lower_seq(base@) == "__init__.py"@),
{
    let target = to_chars("__init__.py");
    if base.len() != target.len() {
        proof {
            assert(ascii_lower_seq(base@).len() == base@.len());
        }
        return false;
    }
    let mut i: usize = 0;
    while i < base.len()
        invariant
            i <= base@.len(),
            base@.len() == target@.len(),
            target@ == "__init__.py"@,
            forall|k: int| 0 <= k < i ==> ascii_lower(base@[k]) == target@[k],
        decreases base@.len() - i,
    {
        if to_ascii_lower(base[i]) != target[i] {
            assert(ascii_lower_seq(base@)[i as int] != target@[i as int]);
            return false;
        }
        i += 1;
    }
    assert(ascii_lower_seq(base@) =~= target@);
    true
}

/// Whether the file is a package's `__init__.py` (see `is_init_spec`).
pub fn is_package_init(file_path: &str, base: &str, init_canonical: Option<&str>) -> (r: bool)
    ensures
        r == is_init_spec(
            file_path@,
            base@,
            match init_canonical {
                Some(c) => Some(c@),
                None => None,
            },
        ),
{
    let b = to_chars(base);
    if crate::text::chars_eq_str(b.as_slice(), "__init__.py") {
        return true;
    }
    if !is_init_name_ignoring_case(b.as_slice()) {
        return false;
    }
    match init_canonical {
        Some(c) => {
            let cc = to_chars(c);
            let fc = to_chars(file_path);
            crate::text::chars_eq(cc.as_slice(), fc.as_slice())
        },
        None => false,
    }
}

/// The module name of a file below the project root, and whether it is a
/// package (see `module_name_spec`). `init_canonical` is where
/// `__init__.py` beside the file resolves to, when it resolves.
pub fn module_name_from_path(project_root: &str, file_path: &str, init_canonical: Option<&str>) -> (r:
    Result<(String, bool), String>)
    ensures
        match module_name_spec(
            project_root@,
            file_path@,
            match init_canonical {
                Some(c) => Some(c@),
                None => None,
            },
        ) {
            Ok((n, p)) => r matches Ok((rn, rp)) && rn@ == n && rp == p,
            Err(e) => r matches Err(re) && re@ == e,
        },
{
    let fc = to_chars(file_path);
    let rc = to_chars(project_root);
    let rel = match strip_path_prefix_chars(fc.as_slice(), rc.as_slice()) {
        None => {
            let mut msg = to_chars("entry file ");
            push_str(&mut msg, file_path);
            push_str(&mut msg, " must be inside project root ");
            push_str(&mut msg, project_root);
            return Err(from_chars(msg.as_slice()));
        },
        Some(rel) => rel,
    };
    let base = match file_name_of(rel.as_slice()) {
        None => {
            let mut msg = to_chars("invalid module path for file ");
            push_str(&mut msg, file_path);
            return Err(from_chars(msg.as_slice()));
        },
        Some(b) => b,
    };
    let pieces = named_pieces(rel.as_slice());
    proof {
        lemma_file_name_piece(split_seq(rel@, '/'));
    }
    let base_s = from_chars(base.as_slice());
    if is_package_init(file_path, base_s.as_str(), init_canonical) {
        let dir = without_last(&pieces);
        let name = join_chars(dir.as_slice(), '.');
        return Ok((from_chars(name.as_slice()), true));
    }
    let ext_ok = match extension_of(base.as_slice()) {
        Some(e) => e.len() == 2 && to_ascii_lower(e[0]) == 'p' && to_ascii_lower(e[1]) == 'y',
        None => false,
    };
    if !ext_ok {
        let mut msg = to_chars("python module path must end with .py: ");
        push_str(&mut msg, file_path);
        return Err(from_chars(msg.as_slice()));
    }
    let parts = split_chars(base.as_slice(), '.');
    let stem_parts = without_last(&parts);
    let stem = join_chars(stem_parts.as_slice(), '.');
    let mut dir = without_last(&pieces);
    let ghost dv = vviews(dir@);
    dir.push(stem);
    assert(vviews(dir@) =~= dv.push(stem@));
    let name = join_chars(dir.as_slice(), '.');
    if name.len() == 0 || crate::text::chars_eq_str(name.as_slice(), ".") {
        let mut msg = to_chars("invalid module path for file ");
        push_str(&mut msg, file_path);
        return Err(from_chars(msg.as_slice()));
    }
    Ok((from_chars(name.as_slice()), false))
}

/// `Path::parent` of a `/`-separated path.
pub fn parent_of(p: &str) -> (r: Option<String>)
    ensures
        match r {
            Some(s) => parent_path(p@) == Some(s@),
            None => parent_path(p@) is None,
        },
{
    proof {
        reveal_strlit("/");
        assert("/"@ =~= seq!['/']);
    }
    let pc = to_chars(p);
    let comps = components(pc.as_slice());
    if comps.len() == 0 || (comps.len() == 1 && crate::text::chars_eq_str(comps[0].as_slice(), "/")) {
        return None;
    }
    let rest = without_last(&comps);
    if rest.len() > 0 && crate::text::chars_eq_str(rest[0].as_slice(), "/") {
        let mut tail: Vec<Vec<char>> = Vec::new();
        let mut i: usize = 1;
        while i < rest.len()
            invariant
                1 <= i <= rest@.len(),
                vviews(tail@) == vviews(rest@).drop_first().take(i - 1),
            decreases rest@.len() - i,
        {
            let mut c: Vec<char> = Vec::new();
            push_all(&mut c, rest[i].as_slice());
            let ghost before = tail@;
            tail.push(c);
            assert(vviews(tail@) =~= vviews(before).push(rest@[i as int]@));
            assert(vviews(rest@).drop_first().take(i as int) =~= vviews(rest@).drop_first().take(i - 1).push(rest@[i as int]@));
            i += 1;
        }
        assert(vviews(rest@).drop_first().take(i - 1) =~= vviews(rest@).drop_first());
        let mut out: Vec<char> = Vec::new();
        out.push('/');
        let joined = join_chars(tail.as_slice(), '/');
        push_all(&mut out, joined.as_slice());
        assert(out@ =~= seq!['/'] + joined@);
        return Some(from_chars(out.as_slice()));
    }
    let joined = join_chars(rest.as_slice(), '/');
    Some(from_chars(joined.as_slice()))
}

/// Refuses an empty entry file argument.
pub fn check_entry_argument(entry_file: &str) -> (r: Result<(), String>)
    ensures
        r is Ok <==> trim(entry_file@).len() > 0,
        r matches Err(e) ==> e@ == "entry file is required"@,
{
    let t = trim_str(entry_file);
    if t.len() == 0 {
        return Err(string_of("entry file is required"));
    }
    Ok(())
}

/// The project root of the (canonical, absolute) entry file: its
/// directory; an error for a directory, a file not ending in `.py`, or a
/// path without a parent (see `entry_root_spec`).
pub fn entry_project_root(abs_entry: &str, is_dir: bool) -> (r: Result<String, String>)
    ensures
        match entry_root_spec(abs_entry@, is_dir) {
            Ok(p) => r matches Ok(s) && s@ == p,
            Err(e) => r matches Err(s) && s@ == e,
        },
{
    if is_dir {
        let mut msg = to_chars("entry file must be a Python file, got directory: ");
        push_str(&mut msg, abs_entry);
        return Err(from_chars(msg.as_slice()));
    }
    if !has_py_extension(abs_entry) {
        let mut msg = to_chars("entry file must end with .py: ");
        push_str(&mut msg, abs_entry);
        return Err(from_chars(msg.as_slice()));
    }
    match parent_of(abs_entry) {
        Some(p) => Ok(p),
        None => Err(string_of("entry file must have parent directory")),
    }
}

} // verus!
