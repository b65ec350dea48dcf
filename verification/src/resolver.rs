//! Module resolution with CPython's precedence: for each dotted component,
//! search locations in order for a regular package (`__init__.py`), a
//! module (`.py`), or a namespace-package directory; native extensions and
//! sourceless bytecode stop the search as unbundleable. Locations are
//! directories or prefixes inside ZIP archives.
//!
//! What directories hold is observed outside the library and handed in as
//! probes; a resolution that needs a probe not yet taken asks for it.
use vstd::prelude::*;
use crate::names::{str_debug, debug_str, zip_join, join_zip_path};
use crate::licenses::{strip_path_prefix, strip_path_prefix_chars};
use crate::text::{chars_eq, from_chars, push_str, split_chars, split_seq, string_of,
    strings_contain, sviews, to_chars, trim, trim_str, vviews};

verus! {

broadcast use vstd::string::group_string_axioms;

/// Where modules are searched, as given: a directory or a ZIP archive with
/// a prefix inside it (the names of its entries read beforehand; none when
/// it could not be read).
#[derive(Debug)]
pub enum SearchRoot {
    /// A directory.
    Directory { path: String, from_sys_path: bool },
    /// A prefix inside a ZIP archive.
    Zip { path: String, prefix: String, from_sys_path: bool, names: Vec<String> },
}

/// An ancestor of a path (the path itself first): its path and, when it is
/// a regular file that could be read, its bytes.
#[derive(Debug)]
pub struct AncestorFile {
    /// The ancestor's path.
    pub path: String,
    /// Its bytes, when it is a readable regular file.
    pub bytes: Option<Vec<u8>>,
}

/// A candidate search root: its cleaned path (redundant separators and `.`
/// components removed), whether it came from an interpreter's `sys.path`,
/// whether it is a directory, and its ancestors (read only when it is not).
#[derive(Debug)]
pub struct RootCandidate {
    /// The cleaned path.
    pub path: String,
    /// Whether it came from an interpreter's `sys.path`.
    pub from_sys_path: bool,
    /// Whether the path is an existing directory.
    pub is_dir: bool,
    /// The ancestors of the path, nearest first, starting with the path.
    pub ancestors: Vec<AncestorFile>,
}

/// A place where one component of a dotted name is looked up.
#[derive(Debug)]
pub enum SearchLocation {
    /// A directory.
    Directory { path: String, from_sys_path: bool },
    /// A prefix inside the ZIP archive of search root `root_index`.
    Zip { root_index: usize, prefix: String, from_sys_path: bool },
}

/// `name` under the directory `dir`: a `/` goes between them unless `dir`
/// is empty or already ends with one.
pub open spec fn dir_join(dir: Seq<char>, name: Seq<char>) -> Seq<char> {
    if dir.len() == 0 {
        name
    } else if dir.last() == '/' {
        dir + name
    } else {
        dir.push('/') + name
    }
}

/// The `__init__.py` of the package directory `dir/name`.
pub open spec fn init_file_of(dir: Seq<char>, name: Seq<char>) -> Seq<char> {
    dir_join(dir_join(dir, name), "__init__.py"@)
}

/// The module file `dir/name.py`.
pub open spec fn module_file_of(dir: Seq<char>, name: Seq<char>) -> Seq<char> {
    dir_join(dir, name + ".py"@)
}

/// What one directory holds for one name: the paths involved and which of
/// them exist (`Err` when a file's status could not be read).
#[derive(Debug)]
pub struct DirProbe {
    /// The directory searched.
    pub dir: String,
    /// The component looked up.
    pub name: String,
    /// Whether `dir/name` holds a native `__init__` extension.
    pub init_extension: bool,
    /// Whether `dir/name/__init__.py` is a regular file.
    pub init_py: Result<bool, String>,
    /// Whether `dir/name/__init__.pyc` is a regular file.
    pub init_pyc: Result<bool, String>,
    /// Whether `dir` holds a native extension module `name`.
    pub module_extension: bool,
    /// Whether `dir/name.py` is a regular file.
    pub module_py: Result<bool, String>,
    /// Whether `dir/name.pyc` is a regular file.
    pub module_pyc: Result<bool, String>,
    /// Whether `dir/name` is a directory.
    pub package_dir_is_dir: bool,
}

/// What a dotted component resolves to in a list of locations.
#[derive(Debug)]
pub enum ComponentResolution {
    /// A module file.
    Module { file_path: String, from_sys_path: bool },
    /// A regular package, with the location of its contents.
    Package { file_path: String, location: SearchLocation, from_sys_path: bool },
    /// A namespace package spread over these locations.
    Namespace { locations: Vec<SearchLocation> },
    /// A native extension or sourceless bytecode.
    Unbundleable,
}

/// The outcome of a lookup that may need a probe first.
#[derive(Debug)]
pub enum Lookup<T> {
    /// The lookup finished.
    Found(T),
    /// The probe of this directory for this name is needed first.
    NeedProbe(String, String),
    /// The lookup failed.
    Failed(String),
}

/// A module found by resolution.
#[derive(Debug)]
pub struct ResolvedModule {
    /// Its dotted name.
    pub name: String,
    /// Its file (or `<namespace:name>` for a namespace package).
    pub file_path: String,
    /// Whether it is a package.
    pub is_package: bool,
    /// Whether it is a namespace package with no file.
    pub synthetic: bool,
    /// Whether every location it was found in came from `sys.path`.
    pub from_sys_path: bool,
}

/// The search roots, in precedence order.
#[derive(Debug)]
pub struct ModuleResolver {
    /// The roots.
    pub roots: Vec<SearchRoot>,
}

// ---------------------------------------------------------------------------
// Specifications
// ---------------------------------------------------------------------------

/// A location as values: whether it is in a ZIP archive, its directory or
/// prefix, its root's index (ZIP only), and whether it came from `sys.path`.
pub type LocView = (bool, Seq<char>, usize, bool);

/// A resolved module as values: name, file, package, synthetic, from `sys.path`.
pub type ResolvedView = (Seq<char>, Seq<char>, bool, bool, bool);

/// What a component resolves to, as values.
pub enum CompSpec {
    /// A module file.
    Module(Seq<char>, bool),
    /// A regular package and the location of its contents.
    Package(Seq<char>, LocView, bool),
    /// A namespace package.
    Namespace(Seq<LocView>),
    /// Not bundleable.
    Unbundleable,
}

/// The outcome of a lookup, as values.
pub enum LookupSpec<T> {
    /// Finished.
    Found(T),
    /// Needs the probe of this directory for this name.
    NeedProbe(Seq<char>, Seq<char>),
    /// Failed.
    Failed(Seq<char>),
}

/// The view of a location.
pub open spec fn loc_view(l: SearchLocation) -> LocView {
    match l {
        SearchLocation::Directory { path, from_sys_path } => (false, path@, 0, from_sys_path),
        SearchLocation::Zip { root_index, prefix, from_sys_path } => (
            true,
            prefix@,
            root_index,
            from_sys_path,
        ),
    }
}

/// The views of locations.
pub open spec fn loc_views(ls: Seq<SearchLocation>) -> Seq<LocView> {
    ls.map_values(|l: SearchLocation| loc_view(l))
}

/// The view of a component resolution.
pub open spec fn comp_view(c: ComponentResolution) -> CompSpec {
    match c {
        ComponentResolution::Module { file_path, from_sys_path } => CompSpec::Module(
            file_path@,
            from_sys_path,
        ),
        ComponentResolution::Package { file_path, location, from_sys_path } => CompSpec::Package(
            file_path@,
            loc_view(location),
            from_sys_path,
        ),
        ComponentResolution::Namespace { locations } => CompSpec::Namespace(
            loc_views(locations@),
        ),
        ComponentResolution::Unbundleable => CompSpec::Unbundleable,
    }
}

/// The view of a resolved module.
pub open spec fn resolved_view(m: ResolvedModule) -> ResolvedView {
    (m.name@, m.file_path@, m.is_package, m.synthetic, m.from_sys_path)
}

/// The first probe taken of `dir` for `name`.
pub open spec fn probe_for(cache: Seq<DirProbe>, dir: Seq<char>, name: Seq<char>) -> Option<
    DirProbe,
>
    decreases cache.len(),
{
    if cache.len() == 0 {
        None
    } else if cache[0].dir@ == dir && cache[0].name@ == name {
        Some(cache[0])
    } else {
        probe_for(cache.drop_first(), dir, name)
    }
}

/// The entry names of the ZIP root `i`, when root `i` is a ZIP root.
pub open spec fn zip_names_of(roots: Seq<SearchRoot>, i: usize) -> Option<Seq<Seq<char>>> {
    if i < roots.len() {
        match roots[i as int] {
            SearchRoot::Zip { names, .. } => Some(sviews(names@)),
            _ => None,
        }
    } else {
        None
    }
}

/// The archive path of the ZIP root `i`, when root `i` is a ZIP root.
pub open spec fn zip_path_of(roots: Seq<SearchRoot>, i: usize) -> Seq<char> {
    match roots[i as int] {
        SearchRoot::Zip { path, .. } => path@,
        _ => Seq::<char>::empty(),
    }
}

/// Whether `c` starts with `p`.
fn starts_with_chars(c: &[char], p: &[char]) -> (r: bool)
    ensures
        r == (p@.len() <= c@.len() && c@.take(p@.len() as int) == p@),
{
    if p.len() > c.len() {
        return false;
    }
    let mut j: usize = 0;
    while j < p.len()
        invariant
            j <= p@.len() <= c@.len(),
            forall|k: int| 0 <= k < j ==> c@[k] == p@[k],
        decreases p@.len() - j,
    {
        if c[j] != p[j] {
            assert(c@.take(p@.len() as int)[j as int] != p@[j as int]);
            return false;
        }
        j += 1;
    }
    assert(c@.take(p@.len() as int) =~= p@);
    true
}

/// Whether some name starts with `p`.
pub open spec fn any_starts_with(names: Seq<Seq<char>>, p: Seq<char>) -> bool {
    exists|k: int|
        0 <= k < names.len() && p.len() <= names[k].len() && #[trigger] names[k].take(
            p.len() as int,
        ) == p
}

/// Looks up `name` in the locations from index `i` on, with the namespace
/// portions `ns` found before `i`.
pub open spec fn find_from(
    roots: Seq<SearchRoot>,
    locs: Seq<LocView>,
    i: int,
    name: Seq<char>,
    cache: Seq<DirProbe>,
    ns: Seq<LocView>,
) -> LookupSpec<Option<CompSpec>>
    decreases locs.len() - i,
{
    if i >= locs.len() || i < 0 {
        if ns.len() == 0 {
            LookupSpec::Found(None)
        } else {
            LookupSpec::Found(Some(CompSpec::Namespace(ns)))
        }
    } else {
        let l = locs[i];
        let fsp = l.3;
        if !l.0 {
            match probe_for(cache, l.1, name) {
                None => LookupSpec::NeedProbe(l.1, name),
                Some(p) => if p.init_extension {
                    LookupSpec::Found(Some(CompSpec::Unbundleable))
                } else {
                    match p.init_py {
                        Err(e) => LookupSpec::Failed(e@),
                        Ok(true) => LookupSpec::Found(
                            Some(
                                CompSpec::Package(
                                    init_file_of(l.1, name),
                                    (false, dir_join(l.1, name), 0, fsp),
                                    fsp,
                                ),
                            ),
                        ),
                        Ok(false) => match p.init_pyc {
                            Err(e) => LookupSpec::Failed(e@),
                            Ok(true) => LookupSpec::Found(Some(CompSpec::Unbundleable)),
                            Ok(false) => if p.module_extension {
                                LookupSpec::Found(Some(CompSpec::Unbundleable))
                            } else {
                                match p.module_py {
                                    Err(e) => LookupSpec::Failed(e@),
                                    Ok(true) => LookupSpec::Found(
                                        Some(CompSpec::Module(module_file_of(l.1, name), fsp)),
                                    ),
                                    Ok(false) => match p.module_pyc {
                                        Err(e) => LookupSpec::Failed(e@),
                                        Ok(true) => LookupSpec::Found(
                                            Some(CompSpec::Unbundleable),
                                        ),
                                        Ok(false) => find_from(
                                            roots,
                                            locs,
                                            i + 1,
                                            name,
                                            cache,
                                            if p.package_dir_is_dir {
                                                ns.push((false, dir_join(l.1, name), 0, fsp))
                                            } else {
                                                ns
                                            },
                                        ),
                                    },
                                }
                            },
                        },
                    }
                },
            }
        } else {
            match zip_names_of(roots, l.2) {
                None => LookupSpec::Failed("internal error: invalid zip search root"@),
                Some(names) => {
                    let base = zip_join(l.1, name);
                    let zp = zip_path_of(roots, l.2);
                    if names.contains(base + "/__init__.py"@) {
                        LookupSpec::Found(
                            Some(
                                CompSpec::Package(
                                    zp + "::"@ + base + "/__init__.py"@,
                                    (true, base, l.2, fsp),
                                    fsp,
                                ),
                            ),
                        )
                    } else if names.contains(base + "/__init__.pyc"@) {
                        LookupSpec::Found(Some(CompSpec::Unbundleable))
                    } else if names.contains(base + ".py"@) {
                        LookupSpec::Found(Some(CompSpec::Module(zp + "::"@ + base + ".py"@, fsp)))
                    } else if names.contains(base + ".pyc"@) {
                        LookupSpec::Found(Some(CompSpec::Unbundleable))
                    } else {
                        find_from(
                            roots,
                            locs,
                            i + 1,
                            name,
                            cache,
                            if any_starts_with(names, base + "/"@) {
                                ns.push((true, base, l.2, fsp))
                            } else {
                                ns
                            },
                        )
                    }
                },
            }
        }
    }
}

/// Whether every location came from `sys.path`.
pub open spec fn all_from_sys_path(ls: Seq<LocView>) -> bool {
    forall|k: int| 0 <= k < ls.len() ==> (#[trigger] ls[k]).3
}

/// Resolves the components of `full` from index `idx` on, in `locs`.
pub open spec fn resolve_from(
    roots: Seq<SearchRoot>,
    full: Seq<char>,
    parts: Seq<Seq<char>>,
    idx: int,
    locs: Seq<LocView>,
    cache: Seq<DirProbe>,
) -> LookupSpec<Option<ResolvedView>>
    decreases parts.len() - idx,
{
    if idx >= parts.len() || idx < 0 {
        LookupSpec::Found(None)
    } else {
        let is_final = idx + 1 == parts.len();
        match find_from(roots, locs, 0, parts[idx], cache, Seq::<LocView>::empty()) {
            LookupSpec::NeedProbe(d, n) => LookupSpec::NeedProbe(d, n),
            LookupSpec::Failed(e) => LookupSpec::Failed(e),
            LookupSpec::Found(None) => LookupSpec::Found(None),
            LookupSpec::Found(Some(CompSpec::Module(fp, fsp))) => if is_final {
                LookupSpec::Found(Some((full, fp, false, false, fsp)))
            } else {
                LookupSpec::Found(None)
            },
            LookupSpec::Found(Some(CompSpec::Package(fp, loc, fsp))) => if is_final {
                LookupSpec::Found(Some((full, fp, true, false, fsp)))
            } else {
                resolve_from(roots, full, parts, idx + 1, seq![loc], cache)
            },
            LookupSpec::Found(Some(CompSpec::Namespace(ls))) => if is_final {
                LookupSpec::Found(
                    Some(
                        (full, "<namespace:"@ + full + ">"@, true, true, all_from_sys_path(ls)),
                    ),
                )
            } else {
                resolve_from(roots, full, parts, idx + 1, ls, cache)
            },
            LookupSpec::Found(Some(CompSpec::Unbundleable)) => LookupSpec::Found(None),
        }
    }
}

/// The locations of the roots: each directory, and each ZIP prefix.
pub open spec fn root_locs(roots: Seq<SearchRoot>) -> Seq<LocView> {
    Seq::new(
        roots.len(),
        |i: int|
            match roots[i] {
                SearchRoot::Directory { path, from_sys_path } => (false, path@, 0usize, from_sys_path),
                SearchRoot::Zip { prefix, from_sys_path, .. } => (
                    true,
                    prefix@,
                    i as usize,
                    from_sys_path,
                ),
            },
    )
}

/// What a dotted name resolves to, given the probes taken so far.
pub open spec fn resolution(roots: Seq<SearchRoot>, name: Seq<char>, cache: Seq<DirProbe>) -> LookupSpec<
    Option<ResolvedView>,
> {
    let t = trim(name);
    if t.len() == 0 {
        LookupSpec::Found(None)
    } else {
        let parts = split_seq(t, '.');
        if exists|k: int| 0 <= k < parts.len() && (#[trigger] parts[k]).len() == 0 {
            LookupSpec::Failed("invalid module name "@ + str_debug(t))
        } else {
            resolve_from(roots, t, parts, 0, root_locs(roots), cache)
        }
    }
}


/// The names of the entries of the ZIP archive held in `bytes`, in the
/// order of its central directory; `None` when the bytes are not a ZIP
/// archive that can be read.
pub uninterp spec fn zip_entry_names(bytes: Seq<u8>) -> Option<Seq<Seq<char>>>;

/// The view of an optional list of names.
pub open spec fn opt_names_view(r: Option<Vec<String>>) -> Option<Seq<Seq<char>>> {
    match r {
        Some(v) => Some(sviews(v@)),
        None => None,
    }
}

/// The first ancestor, from index `i` on, that is a readable ZIP archive:
/// its path, the rest of `path` below it joined with `/`, and its entry
/// names. `None` when there is none, or when `path` does not lie below it.
pub open spec fn zip_split(path: Seq<char>, ancs: Seq<AncestorFile>, i: int) -> Option<
    (Seq<char>, Seq<char>, Seq<Seq<char>>),
>
    decreases ancs.len() - i,
{
    if i >= ancs.len() || i < 0 {
        None
    } else {
        match ancs[i].bytes {
            Some(b) => match zip_entry_names(b@) {
                Some(names) => match strip_path_prefix(path, ancs[i].path@) {
                    Some(prefix) => Some((ancs[i].path@, prefix, names)),
                    None => None,
                },
                None => zip_split(path, ancs, i + 1),
            },
            None => zip_split(path, ancs, i + 1),
        }
    }
}

/// A search root as values: whether it is a ZIP root, its path (the
/// archive's for a ZIP root), its prefix, whether it came from `sys.path`,
/// and its entry names.
pub type RootView = (bool, Seq<char>, Seq<char>, bool, Seq<Seq<char>>);

/// The view of a search root.
pub open spec fn root_view(r: SearchRoot) -> RootView {
    match r {
        SearchRoot::Directory { path, from_sys_path } => (
            false,
            path@,
            Seq::<char>::empty(),
            from_sys_path,
            Seq::<Seq<char>>::empty(),
        ),
        SearchRoot::Zip { path, prefix, from_sys_path, names } => (
            true,
            path@,
            prefix@,
            from_sys_path,
            sviews(names@),
        ),
    }
}

/// The views of search roots.
pub open spec fn root_views(rs: Seq<SearchRoot>) -> Seq<RootView> {
    rs.map_values(|r: SearchRoot| root_view(r))
}

/// The root a candidate gives: a directory, or the ZIP archive among its
/// ancestors; none when it is neither.
pub open spec fn root_of(c: RootCandidate) -> Option<RootView> {
    if c.is_dir {
        Some((false, c.path@, Seq::<char>::empty(), c.from_sys_path, Seq::<Seq<char>>::empty()))
    } else {
        match zip_split(c.path@, c.ancestors@, 0) {
            Some(z) => Some((true, z.0, z.1, c.from_sys_path, z.2)),
            None => None,
        }
    }
}

/// Whether no candidate before `i` has the path of candidate `i`.
pub open spec fn first_seen(cs: Seq<RootCandidate>, i: int) -> bool {
    forall|j: int| 0 <= j < i ==> (#[trigger] cs[j]).path@ != cs[i].path@
}

/// Whether candidate `i` gives a root: its path is not empty, no earlier
/// candidate has it, and it is a directory or lies in a ZIP archive.
pub open spec fn kept(cs: Seq<RootCandidate>, i: int) -> bool {
    cs[i].path@.len() > 0 && first_seen(cs, i) && root_of(cs[i]) is Some
}

/// The search roots the candidates give, in order.
pub open spec fn kept_roots(cs: Seq<RootCandidate>) -> Seq<RootView>
    decreases cs.len(),
{
    if cs.len() == 0 {
        Seq::<RootView>::empty()
    } else if kept(cs, cs.len() - 1) {
        kept_roots(cs.drop_last()).push(root_of(cs.last()).unwrap())
    } else {
        kept_roots(cs.drop_last())
    }
}

/// The view of a component lookup.
pub open spec fn comp_lookup_view(r: Lookup<Option<ComponentResolution>>) -> LookupSpec<
    Option<CompSpec>,
> {
    match r {
        Lookup::Found(None) => LookupSpec::Found(None),
        Lookup::Found(Some(c)) => LookupSpec::Found(Some(comp_view(c))),
        Lookup::NeedProbe(d, n) => LookupSpec::NeedProbe(d@, n@),
        Lookup::Failed(e) => LookupSpec::Failed(e@),
    }
}

/// The view of a module lookup.
pub open spec fn resolved_lookup_view(r: Lookup<Option<ResolvedModule>>) -> LookupSpec<
    Option<ResolvedView>,
> {
    match r {
        Lookup::Found(None) => LookupSpec::Found(None),
        Lookup::Found(Some(m)) => LookupSpec::Found(Some(resolved_view(m))),
        Lookup::NeedProbe(d, n) => LookupSpec::NeedProbe(d@, n@),
        Lookup::Failed(e) => LookupSpec::Failed(e@),
    }
}

// ---------------------------------------------------------------------------
// Executable functions
// ---------------------------------------------------------------------------

/// `name` under the directory `dir` (see `dir_join`).
pub fn dir_join_path(dir: &str, name: &str) -> (r: String)
    ensures
        r@ == dir_join(dir@, name@),
{
    let mut out = to_chars(dir);
    if out.len() > 0 && out[out.len() - 1] != '/' {
        out.push('/');
    }
    push_str(&mut out, name);
    proof {
        if dir@.len() > 0 {
            assert(dir@.last() == dir@[dir@.len() - 1]);
        }
    }
    from_chars(out.as_slice())
}

/// The `__init__.py` of the package directory `dir/name`.
pub fn init_file_path(dir: &str, name: &str) -> (r: String)
    ensures
        r@ == init_file_of(dir@, name@),
{
    let d = dir_join_path(dir, name);
    dir_join_path(d.as_str(), "__init__.py")
}

/// The module file `dir/name.py`.
pub fn module_file_path(dir: &str, name: &str) -> (r: String)
    ensures
        r@ == module_file_of(dir@, name@),
{
    let mut n = to_chars(name);
    push_str(&mut n, ".py");
    let f = from_chars(n.as_slice());
    dir_join_path(dir, f.as_str())
}

/// The entry names of a ZIP archive held in memory (the zip crate's
/// `ZipArchive::new` over the bytes, then `file_names`).
/// Claimed: the result is `zip_entry_names` of the bytes, a function of
/// them alone (the crate reads the central directory and lists its entries
/// in that order); `None` when the crate refuses the archive.
#[verifier::external_body]
fn zip_file_names(bytes: &[u8]) -> (r: Option<Vec<String>>)
    ensures
        opt_names_view(r) == zip_entry_names(bytes@),
{
    zip::ZipArchive::new(std::io::Cursor::new(bytes)).ok().map(
        |archive| archive.file_names().map(|name| name.to_string()).collect(),
    )
}

/// The entry names of the ZIP archive in `bytes`; none when it cannot be read.
pub fn zip_names(bytes: &[u8]) -> (r: Vec<String>)
    ensures
        sviews(r@) == match zip_entry_names(bytes@) {
            Some(n) => n,
            None => Seq::<Seq<char>>::empty(),
        },
{
    match zip_file_names(bytes) {
        Some(v) => v,
        None => {
            let v: Vec<String> = Vec::new();
            assert(sviews(v@) =~= Seq::<Seq<char>>::empty());
            v
        },
    }
}

/// Splits a path that lies inside a ZIP archive into the archive's path
/// and the prefix inside it, with the archive's entry names: the nearest
/// ancestor that is a readable ZIP archive is taken.
pub fn split_importable_zip_path(path: &str, ancestors: &[AncestorFile]) -> (r: Option<
    (String, String, Vec<String>),
>)
    ensures
        match r {
            Some(t) => zip_split(path@, ancestors@, 0) == Some((t.0@, t.1@, sviews(t.2@))),
            None => zip_split(path@, ancestors@, 0) is None,
        },
{
    let pc = to_chars(path);
    let mut i: usize = 0;
    while i < ancestors.len()
        invariant
            i <= ancestors@.len(),
            pc@ == path@,
            zip_split(path@, ancestors@, 0) == zip_split(path@, ancestors@, i as int),
        decreases ancestors@.len() - i,
    {
        match &ancestors[i].bytes {
            Some(b) => match zip_file_names(b.as_slice()) {
                Some(names) => {
                    let ac = to_chars(ancestors[i].path.as_str());
                    match strip_path_prefix_chars(pc.as_slice(), ac.as_slice()) {
                        Some(prefix) => {
                            let archive = ancestors[i].path.clone();
                            return Some((archive, from_chars(prefix.as_slice()), names));
                        },
                        None => {
                            return None;
                        },
                    }
                },
                None => {},
            },
            None => {},
        }
        i += 1;
    }
    None
}

/// Whether the path lies inside a readable ZIP archive.
pub fn is_importable_zip(path: &str, ancestors: &[AncestorFile]) -> (r: bool)
    ensures
        r == zip_split(path@, ancestors@, 0) is Some,
{
    split_importable_zip_path(path, ancestors).is_some()
}

proof fn lemma_kept_prefix(cs: Seq<RootCandidate>, i: int)
    requires
        0 <= i < cs.len(),
    ensures
        kept(cs.take(i + 1), i) == kept(cs, i),
        cs.take(i + 1).drop_last() == cs.take(i),
        cs.take(i + 1).last() == cs[i],
{
    assert(cs.take(i + 1).drop_last() =~= cs.take(i));
    let t = cs.take(i + 1);
    assert(first_seen(t, i) == first_seen(cs, i)) by {
        if first_seen(cs, i) {
            assert forall|j: int| 0 <= j < i implies (#[trigger] t[j]).path@ != t[i].path@ by {
                assert(t[j] == cs[j]);
            }
        }
        if first_seen(t, i) {
            assert forall|j: int| 0 <= j < i implies (#[trigger] cs[j]).path@ != cs[i].path@ by {
                assert(t[j] == cs[j]);
            }
        }
    }
}

impl ModuleResolver {
    /// The resolver over the roots the candidates give: empty paths and
    /// paths already seen are skipped, as are paths that are neither a
    /// directory nor inside a ZIP archive.
    pub fn new(candidates: &[RootCandidate]) -> (r: Self)
        ensures
            root_views(r.roots@) == kept_roots(candidates@),
    {
        let mut roots: Vec<SearchRoot> = Vec::new();
        let mut seen: Vec<String> = Vec::new();
        let mut i: usize = 0;
        while i < candidates.len()
            invariant
                i <= candidates@.len(),
                seen@.len() == i,
                forall|j: int| 0 <= j < i ==> (#[trigger] seen@[j])@ == candidates@[j].path@,
                root_views(roots@) == kept_roots(candidates@.take(i as int)),
            decreases candidates@.len() - i,
        {
            let c = &candidates[i];
            let pc = to_chars(c.path.as_str());
            let dup = strings_contain(seen.as_slice(), pc.as_slice());
            proof {
                lemma_kept_prefix(candidates@, i as int);
                assert(dup == !first_seen(candidates@, i as int)) by {
                    if dup {
                        let k = choose|k: int| 0 <= k < sviews(seen@).len() && sviews(seen@)[k] == pc@;
                        assert(seen@[k]@ == candidates@[k].path@);
                    } else {
                        assert forall|j: int| 0 <= j < i implies (#[trigger] candidates@[j]).path@
                            != candidates@[i as int].path@ by {
                            assert(sviews(seen@)[j] == seen@[j]@);
                        }
                    }
                }
            }
            let ghost before = roots@;
            if pc.len() > 0 && !dup {
                if c.is_dir {
                    roots.push(SearchRoot::Directory { path: c.path.clone(), from_sys_path: c.from_sys_path });
                    assert(root_views(roots@) =~= root_views(before).push(root_of(candidates@[i as int]).unwrap()));
                } else {
                    match split_importable_zip_path(c.path.as_str(), c.ancestors.as_slice()) {
                        Some(t) => {
                            let (archive, prefix, names) = t;
                            roots.push(SearchRoot::Zip { path: archive, prefix, from_sys_path: c.from_sys_path, names });
                            assert(root_views(roots@) =~= root_views(before).push(root_of(candidates@[i as int]).unwrap()));
                        },
                        None => {},
                    }
                }
            }
            seen.push(c.path.clone());
            i += 1;
        }
        assert(candidates@.take(candidates@.len() as int) =~= candidates@);
        ModuleResolver { roots }
    }
}


impl SearchLocation {
    /// Whether the location came from an interpreter's `sys.path`.
    pub fn is_from_sys_path(&self) -> (r: bool)
        ensures
            r == loc_view(*self).3,
    {
        match self {
            SearchLocation::Directory { from_sys_path, .. } => *from_sys_path,
            SearchLocation::Zip { from_sys_path, .. } => *from_sys_path,
        }
    }
}

/// The index of the first probe of `dir` for `name`.
fn find_probe(cache: &[DirProbe], dir: &str, name: &str) -> (r: Option<usize>)
    ensures
        match r {
            Some(k) => k < cache@.len() && probe_for(cache@, dir@, name@) == Some(cache@[k as int]),
            None => probe_for(cache@, dir@, name@) is None,
        },
{
    let dc = to_chars(dir);
    let nc = to_chars(name);
    let mut i: usize = 0;
    assert(cache@.skip(0) =~= cache@);
    while i < cache.len()
        invariant
            i <= cache@.len(),
            dc@ == dir@,
            nc@ == name@,
            probe_for(cache@, dir@, name@) == probe_for(cache@.skip(i as int), dir@, name@),
        decreases cache@.len() - i,
    {
        assert(cache@.skip(i as int).drop_first() =~= cache@.skip(i + 1));
        assert(cache@.skip(i as int)[0] == cache@[i as int]);
        let d = to_chars(cache[i].dir.as_str());
        let n = to_chars(cache[i].name.as_str());
        if chars_eq(d.as_slice(), dc.as_slice()) && chars_eq(n.as_slice(), nc.as_slice()) {
            return Some(i);
        }
        i += 1;
    }
    None
}

/// Whether some name starts with `p`.
fn names_have_prefix(names: &[String], p: &[char]) -> (r: bool)
    ensures
        r == any_starts_with(sviews(names@), p@),
{
    let mut i: usize = 0;
    while i < names.len()
        invariant
            i <= names@.len(),
            forall|k: int|
                0 <= k < i ==> !(p@.len() <= (#[trigger] names@[k])@.len() && names@[k]@.take(
                    p@.len() as int,
                ) == p@),
        decreases names@.len() - i,
    {
        let c = to_chars(names[i].as_str());
        if starts_with_chars(c.as_slice(), p) {
            assert(sviews(names@)[i as int] == c@);
            return true;
        }
        i += 1;
    }
    proof {
        if any_starts_with(sviews(names@), p@) {
            let k = choose|k: int|
                0 <= k < sviews(names@).len() && p@.len() <= sviews(names@)[k].len()
                    && #[trigger] sviews(names@)[k].take(p@.len() as int) == p@;
            assert(sviews(names@)[k] == names@[k]@);
        }
    }
    false
}

/// `a` followed by the characters of `s`.
fn concat_str(a: &[char], s: &str) -> (r: Vec<char>)
    ensures
        r@ == a@ + s@,
{
    let mut out: Vec<char> = Vec::new();
    crate::text::push_all(&mut out, a);
    push_str(&mut out, s);
    assert(out@ =~= a@ + s@);
    out
}

/// The path of an entry inside an archive: `archive::member`.
fn zip_member_path(archive: &str, member: &[char]) -> (r: String)
    ensures
        r@ == archive@ + "::"@ + member@,
{
    let mut out = to_chars(archive);
    push_str(&mut out, "::");
    crate::text::push_all(&mut out, member);
    from_chars(out.as_slice())
}

/// Whether every location came from `sys.path`.
fn all_locations_from_sys_path(ls: &[SearchLocation]) -> (r: bool)
    ensures
        r == all_from_sys_path(loc_views(ls@)),
{
    let mut i: usize = 0;
    while i < ls.len()
        invariant
            i <= ls@.len(),
            forall|k: int| 0 <= k < i ==> (#[trigger] loc_views(ls@)[k]).3,
        decreases ls@.len() - i,
    {
        if !ls[i].is_from_sys_path() {
            assert(!loc_views(ls@)[i as int].3);
            return false;
        }
        i += 1;
    }
    true
}

impl ModuleResolver {
    /// The archive path of the ZIP root `root_index`; an error when that
    /// root is not a ZIP root.
    pub fn zip_path(&self, root_index: usize) -> (r: Result<String, String>)
        ensures
            match zip_names_of(self.roots@, root_index) {
                Some(_) => r matches Ok(p) && p@ == zip_path_of(self.roots@, root_index),
                None => r matches Err(e) && e@ == "internal error: invalid zip search root"@,
            },
    {
        if root_index < self.roots.len() {
            match &self.roots[root_index] {
                SearchRoot::Zip { path, .. } => {
                    return Ok(path.clone());
                },
                SearchRoot::Directory { .. } => {},
            }
        }
        Err(string_of("internal error: invalid zip search root"))
    }

    /// Whether the ZIP root `root_index` has an entry named `name`; an
    /// error when that root is not a ZIP root.
    pub fn zip_contains(&self, root_index: usize, name: &str) -> (r: Result<bool, String>)
        ensures
            match zip_names_of(self.roots@, root_index) {
                Some(ns) => r == Ok::<bool, String>(ns.contains(name@)),
                None => r matches Err(e) && e@ == "internal error: invalid zip search root"@,
            },
    {
        if root_index < self.roots.len() {
            match &self.roots[root_index] {
                SearchRoot::Zip { names, .. } => {
                    let nc = to_chars(name);
                    return Ok(strings_contain(names.as_slice(), nc.as_slice()));
                },
                SearchRoot::Directory { .. } => {},
            }
        }
        Err(string_of("internal error: invalid zip search root"))
    }

    /// Whether some entry of the ZIP root `root_index` starts with
    /// `prefix`; an error when that root is not a ZIP root.
    pub fn zip_has_prefix(&self, root_index: usize, prefix: &str) -> (r: Result<bool, String>)
        ensures
            match zip_names_of(self.roots@, root_index) {
                Some(ns) => r == Ok::<bool, String>(any_starts_with(ns, prefix@)),
                None => r matches Err(e) && e@ == "internal error: invalid zip search root"@,
            },
    {
        if root_index < self.roots.len() {
            match &self.roots[root_index] {
                SearchRoot::Zip { names, .. } => {
                    let pc = to_chars(prefix);
                    return Ok(names_have_prefix(names.as_slice(), pc.as_slice()));
                },
                SearchRoot::Directory { .. } => {},
            }
        }
        Err(string_of("internal error: invalid zip search root"))
    }

    /// The locations of the roots, in order: each directory, and each ZIP
    /// prefix with its root's index.
    pub fn root_locations(&self) -> (r: Vec<SearchLocation>)
        ensures
            loc_views(r@) == root_locs(self.roots@),
    {
        let mut out: Vec<SearchLocation> = Vec::new();
        let mut i: usize = 0;
        while i < self.roots.len()
            invariant
                i <= self.roots@.len(),
                loc_views(out@) == root_locs(self.roots@).take(i as int),
            decreases self.roots@.len() - i,
        {
            let ghost before = out@;
            match &self.roots[i] {
                SearchRoot::Directory { path, from_sys_path } => {
                    out.push(SearchLocation::Directory { path: path.clone(), from_sys_path: *from_sys_path });
                },
                SearchRoot::Zip { prefix, from_sys_path, .. } => {
                    out.push(SearchLocation::Zip { root_index: i, prefix: prefix.clone(), from_sys_path: *from_sys_path });
                },
            }
            assert(loc_views(out@) =~= root_locs(self.roots@).take(i + 1)) by {
                assert(loc_views(out@) =~= loc_views(before).push(loc_view(out@[i as int])));
            }
            i += 1;
        }
        assert(root_locs(self.roots@).take(self.roots@.len() as int) =~= root_locs(self.roots@));
        out
    }

    /// Looks `name` up in the locations, in order: a native `__init__`
    /// extension, a regular package, sourceless package bytecode, a native
    /// extension module, a module file and sourceless bytecode each end the
    /// search; directories and ZIP prefixes named `name` found on the way
    /// make up a namespace package when nothing else is found.
    pub fn find_component(
        &self,
        locations: &[SearchLocation],
        name: &str,
        cache: &[DirProbe],
    ) -> (r: Lookup<Option<ComponentResolution>>)
        ensures
            comp_lookup_view(r) == find_from(
                self.roots@,
                loc_views(locations@),
                0,
                name@,
                cache@,
                Seq::<LocView>::empty(),
            ),
    {
        let ghost locs = loc_views(locations@);
        let mut ns: Vec<SearchLocation> = Vec::new();
        assert(loc_views(ns@) =~= Seq::<LocView>::empty());
        let mut i: usize = 0;
        while i < locations.len()
            invariant
                i <= locations@.len(),
                locs == loc_views(locations@),
                find_from(self.roots@, locs, 0, name@, cache@, Seq::<LocView>::empty()) == find_from(
                    self.roots@,
                    locs,
                    i as int,
                    name@,
                    cache@,
                    loc_views(ns@),
                ),
            decreases locations@.len() - i,
        {
            let ghost nsv = loc_views(ns@);
            match &locations[i] {
                SearchLocation::Directory { path, from_sys_path } => {
                    let fsp = *from_sys_path;
                    match find_probe(cache, path.as_str(), name) {
                        None => {
                            return Lookup::NeedProbe(path.clone(), string_of(name));
                        },
                        Some(k) => {
                            let p = &cache[k];
                            if p.init_extension {
                                return Lookup::Found(Some(ComponentResolution::Unbundleable));
                            }
                            match &p.init_py {
                                Err(e) => {
                                    return Lookup::Failed(e.clone());
                                },
                                Ok(true) => {
                                    return Lookup::Found(
                                        Some(
                                            ComponentResolution::Package {
                                                file_path: init_file_path(path.as_str(), name),
                                                location: SearchLocation::Directory {
                                                    path: dir_join_path(path.as_str(), name),
                                                    from_sys_path: fsp,
                                                },
                                                from_sys_path: fsp,
                                            },
                                        ),
                                    );
                                },
                                Ok(false) => {},
                            }
                            match &p.init_pyc {
                                Err(e) => {
                                    return Lookup::Failed(e.clone());
                                },
                                Ok(true) => {
                                    return Lookup::Found(Some(ComponentResolution::Unbundleable));
                                },
                                Ok(false) => {},
                            }
                            if p.module_extension {
                                return Lookup::Found(Some(ComponentResolution::Unbundleable));
                            }
                            match &p.module_py {
                                Err(e) => {
                                    return Lookup::Failed(e.clone());
                                },
                                Ok(true) => {
                                    return Lookup::Found(
                                        Some(
                                            ComponentResolution::Module {
                                                file_path: module_file_path(path.as_str(), name),
                                                from_sys_path: fsp,
                                            },
                                        ),
                                    );
                                },
                                Ok(false) => {},
                            }
                            match &p.module_pyc {
                                Err(e) => {
                                    return Lookup::Failed(e.clone());
                                },
                                Ok(true) => {
                                    return Lookup::Found(Some(ComponentResolution::Unbundleable));
                                },
                                Ok(false) => {},
                            }
                            if p.package_dir_is_dir {
                                ns.push(
                                    SearchLocation::Directory {
                                        path: dir_join_path(path.as_str(), name),
                                        from_sys_path: fsp,
                                    },
                                );
                                assert(loc_views(ns@) =~= nsv.push(
                                    (false, dir_join(path@, name@), 0usize, fsp),
                                ));
                            }
                        },
                    }
                },
                SearchLocation::Zip { root_index, prefix, from_sys_path } => {
                    let fsp = *from_sys_path;
                    let ri = *root_index;
                    let base = join_zip_path(prefix.as_str(), name);
                    let bc = to_chars(base.as_str());
                    let init = from_chars(concat_str(bc.as_slice(), "/__init__.py").as_slice());
                    match self.zip_contains(ri, init.as_str()) {
                        Err(e) => {
                            return Lookup::Failed(e);
                        },
                        Ok(true) => {
                            let zpath = match self.zip_path(ri) {
                                Ok(p) => p,
                                Err(e) => {
                                    return Lookup::Failed(e);
                                },
                            };
                            let ic = to_chars(init.as_str());
                            assert(zpath@ + "::"@ + ic@ =~= zpath@ + "::"@ + bc@ + "/__init__.py"@);
                            return Lookup::Found(
                                Some(
                                    ComponentResolution::Package {
                                        file_path: zip_member_path(zpath.as_str(), ic.as_slice()),
                                        location: SearchLocation::Zip {
                                            root_index: ri,
                                            prefix: base,
                                            from_sys_path: fsp,
                                        },
                                        from_sys_path: fsp,
                                    },
                                ),
                            );
                        },
                        Ok(false) => {},
                    }
                    let init_pyc = from_chars(concat_str(bc.as_slice(), "/__init__.pyc").as_slice());
                    match self.zip_contains(ri, init_pyc.as_str()) {
                        Err(e) => {
                            return Lookup::Failed(e);
                        },
                        Ok(true) => {
                            return Lookup::Found(Some(ComponentResolution::Unbundleable));
                        },
                        Ok(false) => {},
                    }
                    let module = from_chars(concat_str(bc.as_slice(), ".py").as_slice());
                    match self.zip_contains(ri, module.as_str()) {
                        Err(e) => {
                            return Lookup::Failed(e);
                        },
                        Ok(true) => {
                            let zpath = match self.zip_path(ri) {
                                Ok(p) => p,
                                Err(e) => {
                                    return Lookup::Failed(e);
                                },
                            };
                            let mc = to_chars(module.as_str());
                            assert(zpath@ + "::"@ + mc@ =~= zpath@ + "::"@ + bc@ + ".py"@);
                            return Lookup::Found(
                                Some(
                                    ComponentResolution::Module {
                                        file_path: zip_member_path(zpath.as_str(), mc.as_slice()),
                                        from_sys_path: fsp,
                                    },
                                ),
                            );
                        },
                        Ok(false) => {},
                    }
                    let module_pyc = from_chars(concat_str(bc.as_slice(), ".pyc").as_slice());
                    match self.zip_contains(ri, module_pyc.as_str()) {
                        Err(e) => {
                            return Lookup::Failed(e);
                        },
                        Ok(true) => {
                            return Lookup::Found(Some(ComponentResolution::Unbundleable));
                        },
                        Ok(false) => {},
                    }
                    let dir = from_chars(concat_str(bc.as_slice(), "/").as_slice());
                    match self.zip_has_prefix(ri, dir.as_str()) {
                        Err(e) => {
                            return Lookup::Failed(e);
                        },
                        Ok(true) => {
                            ns.push(SearchLocation::Zip { root_index: ri, prefix: base, from_sys_path: fsp });
                            assert(loc_views(ns@) =~= nsv.push((true, bc@, ri, fsp)));
                        },
                        Ok(false) => {},
                    }
                },
            }
            i += 1;
        }
        if ns.len() == 0 {
            Lookup::Found(None)
        } else {
            Lookup::Found(Some(ComponentResolution::Namespace { locations: ns }))
        }
    }

    /// Resolves a dotted module name, component by component: the name is
    /// trimmed; an empty name resolves to nothing, and a name with an empty
    /// component is an error. A module ends the search (a match only as
    /// the last component), a package continues in its directory, a
    /// namespace package in all its portions; an unbundleable component
    /// resolves to nothing.
    pub fn resolve_module(&self, module_name: &str, cache: &[DirProbe]) -> (r: Lookup<
        Option<ResolvedModule>,
    >)
        ensures
            resolved_lookup_view(r) == resolution(self.roots@, module_name@, cache@),
    {
        let t = trim_str(module_name);
        if t.len() == 0 {
            return Lookup::Found(None);
        }
        let parts = split_chars(t.as_slice(), '.');
        let ghost pv = vviews(parts@);
        let mut k: usize = 0;
        while k < parts.len()
            invariant
                k <= parts@.len(),
                pv == vviews(parts@),
                pv == split_seq(t@, '.'),
                t@ == trim(module_name@),
                t@.len() > 0,
                forall|j: int| 0 <= j < k ==> (#[trigger] pv[j]).len() > 0,
            decreases parts@.len() - k,
        {
            if parts[k].len() == 0 {
                assert(pv[k as int].len() == 0);
                let tn = from_chars(t.as_slice());
                let d = debug_str(tn.as_str());
                let mut msg = to_chars("invalid module name ");
                push_str(&mut msg, d.as_str());
                assert(split_seq(trim(module_name@), '.')[k as int].len() == 0);
                assert(msg@ == "invalid module name "@ + str_debug(trim(module_name@)));
                assert(exists|j: int|
                    0 <= j < split_seq(trim(module_name@), '.').len() && (#[trigger] split_seq(
                        trim(module_name@),
                        '.',
                    )[j]).len() == 0);
                assert(trim(module_name@).len() > 0);
                return Lookup::Failed(from_chars(msg.as_slice()));
            }
            k += 1;
        }
        assert(!(exists|j: int| 0 <= j < pv.len() && (#[trigger] pv[j]).len() == 0));
        let mut locations = self.root_locations();
        let mut idx: usize = 0;
        while idx < parts.len()
            invariant
                idx <= parts@.len(),
                pv == vviews(parts@),
                pv == split_seq(t@, '.'),
                t@ == trim(module_name@),
                t@.len() > 0,
                !(exists|j: int| 0 <= j < pv.len() && (#[trigger] pv[j]).len() == 0),
                resolution(self.roots@, module_name@, cache@) == resolve_from(
                    self.roots@,
                    t@,
                    pv,
                    idx as int,
                    loc_views(locations@),
                    cache@,
                ),
            decreases parts@.len() - idx,
        {
            let is_final = idx + 1 == parts.len();
            let part = from_chars(parts[idx].as_slice());
            match self.find_component(locations.as_slice(), part.as_str(), cache) {
                Lookup::NeedProbe(d, n) => {
                    return Lookup::NeedProbe(d, n);
                },
                Lookup::Failed(e) => {
                    return Lookup::Failed(e);
                },
                Lookup::Found(None) => {
                    return Lookup::Found(None);
                },
                Lookup::Found(Some(c)) => match c {
                    ComponentResolution::Module { file_path, from_sys_path } => {
                        if is_final {
                            return Lookup::Found(
                                Some(
                                    ResolvedModule {
                                        name: from_chars(t.as_slice()),
                                        file_path,
                                        is_package: false,
                                        synthetic: false,
                                        from_sys_path,
                                    },
                                ),
                            );
                        }
                        return Lookup::Found(None);
                    },
                    ComponentResolution::Package { file_path, location, from_sys_path } => {
                        if is_final {
                            return Lookup::Found(
                                Some(
                                    ResolvedModule {
                                        name: from_chars(t.as_slice()),
                                        file_path,
                                        is_package: true,
                                        synthetic: false,
                                        from_sys_path,
                                    },
                                ),
                            );
                        }
                        let ghost lv = loc_view(location);
                        let mut next: Vec<SearchLocation> = Vec::new();
                        next.push(location);
                        assert(loc_views(next@) =~= seq![lv]);
                        locations = next;
                    },
                    ComponentResolution::Namespace { locations: ls } => {
                        if is_final {
                            let fsp = all_locations_from_sys_path(ls.as_slice());
                            let mut fp = to_chars("<namespace:");
                            crate::text::push_all(&mut fp, t.as_slice());
                            push_str(&mut fp, ">");
                            return Lookup::Found(
                                Some(
                                    ResolvedModule {
                                        name: from_chars(t.as_slice()),
                                        file_path: from_chars(fp.as_slice()),
                                        is_package: true,
                                        synthetic: true,
                                        from_sys_path: fsp,
                                    },
                                ),
                            );
                        }
                        locations = ls;
                    },
                    ComponentResolution::Unbundleable => {
                        return Lookup::Found(None);
                    },
                },
            }
            idx += 1;
        }
        Lookup::Found(None)
    }
}


/// An entry of a directory listing: its name and whether it is a regular file.
#[derive(Debug)]
pub struct ListedEntry {
    /// The entry's name.
    pub name: String,
    /// Whether it is a regular file.
    pub is_file: bool,
}

/// Whether `s` starts with `p`.
pub open spec fn starts_with(s: Seq<char>, p: Seq<char>) -> bool {
    p.len() <= s.len() && s.take(p.len() as int) == p
}

/// Whether `s` ends with `p`.
pub open spec fn ends_with(s: Seq<char>, p: Seq<char>) -> bool {
    p.len() <= s.len() && s.skip(s.len() - p.len()) == p
}

/// Whether a file name is that of a native extension module `stem`:
/// `stem.so`, `stem.pyd`, or `stem.<tag>` with a CPython or stable-ABI tag
/// (`cpython-*.so`, `abi3.so`, `cp*.pyd`, `abi3.pyd`).
pub open spec fn is_extension_name(name: Seq<char>, stem: Seq<char>) -> bool {
    let dotted = stem.push('.');
    ||| name == stem + ".so"@
    ||| name == stem + ".pyd"@
    ||| starts_with(name, dotted) && {
        let tag = name.skip(dotted.len() as int);
        ||| ends_with(tag, ".so"@) && (starts_with(tag, "cpython-"@) || tag == "abi3.so"@)
        ||| ends_with(tag, ".pyd"@) && (starts_with(tag, "cp"@) || tag == "abi3.pyd"@)
    }
}

/// Whether `s` ends with `p`.
fn ends_with_chars(s: &[char], p: &[char]) -> (r: bool)
    ensures
        r == ends_with(s@, p@),
{
    if p.len() > s.len() {
        return false;
    }
    let off = s.len() - p.len();
    let mut j: usize = 0;
    while j < p.len()
        invariant
            p@.len() <= s@.len(),
            s@.len() == s.len(),
            p@.len() == p.len(),
            off == s@.len() - p@.len(),
            j <= p@.len(),
            forall|k: int| 0 <= k < j ==> s@[off + k] == p@[k],
        decreases p@.len() - j,
    {
        if s[off + j] != p[j] {
            assert(s@.skip(off as int)[j as int] != p@[j as int]);
            return false;
        }
        j += 1;
    }
    assert(s@.skip(off as int) =~= p@);
    true
}

/// Whether a file name is that of a native extension module `stem`.
pub fn is_extension_module_name(name: &str, stem: &str) -> (r: bool)
    ensures
        r == is_extension_name(name@, stem@),
{
    let n = to_chars(name);
    let st = to_chars(stem);
    let so = concat_str(st.as_slice(), ".so");
    let pyd = concat_str(st.as_slice(), ".pyd");
    if chars_eq(n.as_slice(), so.as_slice()) || chars_eq(n.as_slice(), pyd.as_slice()) {
        return true;
    }
    let dotted = concat_str(st.as_slice(), ".");
    assert(dotted@ == stem@.push('.')) by {
        reveal_strlit(".");
        assert(dotted@ =~= stem@.push('.'));
    }
    if !starts_with_chars(n.as_slice(), dotted.as_slice()) {
        return false;
    }
    let mut tag: Vec<char> = Vec::new();
    let mut k: usize = dotted.len();
    while k < n.len()
        invariant
            dotted@.len() <= k <= n@.len(),
            tag@ == n@.subrange(dotted@.len() as int, k as int),
        decreases n@.len() - k,
    {
        tag.push(n[k]);
        k += 1;
        assert(tag@ =~= n@.subrange(dotted@.len() as int, k as int));
    }
    assert(tag@ =~= n@.skip(dotted@.len() as int));
    let so_tag = to_chars(".so");
    let pyd_tag = to_chars(".pyd");
    let cpython = to_chars("cpython-");
    let cp = to_chars("cp");
    (ends_with_chars(tag.as_slice(), so_tag.as_slice()) && (starts_with_chars(
        tag.as_slice(),
        cpython.as_slice(),
    ) || crate::text::chars_eq_str(tag.as_slice(), "abi3.so"))) || (ends_with_chars(
        tag.as_slice(),
        pyd_tag.as_slice(),
    ) && (starts_with_chars(tag.as_slice(), cp.as_slice()) || crate::text::chars_eq_str(
        tag.as_slice(),
        "abi3.pyd",
    )))
}

/// Whether a directory (as listed; empty when it cannot be read) holds a
/// native extension module `stem` as a regular file.
pub fn extension_module_exists(entries: &[ListedEntry], stem: &str) -> (r: bool)
    ensures
        r == exists|i: int|
            0 <= i < entries@.len() && (#[trigger] entries@[i]).is_file && is_extension_name(
                entries@[i].name@,
                stem@,
            ),
{
    let mut i: usize = 0;
    while i < entries.len()
        invariant
            i <= entries@.len(),
            forall|k: int|
                0 <= k < i ==> !((#[trigger] entries@[k]).is_file && is_extension_name(
                    entries@[k].name@,
                    stem@,
                )),
        decreases entries@.len() - i,
    {
        if entries[i].is_file && is_extension_module_name(entries[i].name.as_str(), stem) {
            return true;
        }
        i += 1;
    }
    false
}


// ---------------------------------------------------------------------------
// Reading module sources
// ---------------------------------------------------------------------------

/// What reading the entry `entry` of the ZIP archive in `archive` gives:
/// the entry's bytes, or the stage that failed (0: the archive, 1: finding
/// the entry, 2: reading it) with the zip crate's message.
pub uninterp spec fn zip_entry_read(archive: Seq<u8>, entry: Seq<char>) -> Result<Seq<u8>, (int, Seq<char>)>;

/// Why an entry of a ZIP archive could not be read.
#[derive(Debug)]
pub enum ZipEntryError {
    /// The archive could not be read.
    Archive(String),
    /// The archive has no such entry.
    Entry(String),
    /// The entry's data could not be read.
    Read(String),
}

/// The view of a ZIP entry read.
pub open spec fn zip_read_view(r: Result<Vec<u8>, ZipEntryError>) -> Result<Seq<u8>, (int, Seq<char>)> {
    match r {
        Ok(b) => Ok(b@),
        Err(ZipEntryError::Archive(e)) => Err((0, e@)),
        Err(ZipEntryError::Entry(e)) => Err((1, e@)),
        Err(ZipEntryError::Read(e)) => Err((2, e@)),
    }
}

/// Reads one entry of a ZIP archive held in memory (the zip crate's
/// `ZipArchive::new`, `by_name` and the entry's `read_to_end`).
/// Claimed: the result is `zip_entry_read` of the archive's bytes and the
/// entry's name, a function of them alone; each failure is reported with
/// the stage it happened at and the crate's error message.
#[verifier::external_body]
fn read_zip_entry(archive: &[u8], entry: &str) -> (r: Result<Vec<u8>, ZipEntryError>)
    ensures
        zip_read_view(r) == zip_entry_read(archive@, entry@),
{
    let mut zip = match zip::ZipArchive::new(std::io::Cursor::new(archive)) {
        Ok(z) => z,
        Err(e) => return Err(ZipEntryError::Archive(e.to_string())),
    };
    let mut file = match zip.by_name(entry) {
        Ok(f) => f,
        Err(e) => return Err(ZipEntryError::Entry(e.to_string())),
    };
    let mut buf = Vec::new();
    match std::io::Read::read_to_end(&mut file, &mut buf) {
        Ok(_) => Ok(buf),
        Err(e) => Err(ZipEntryError::Read(e.to_string())),
    }
}

/// Whether `s` has `::` at position `k`.
pub open spec fn sep_at(s: Seq<char>) -> spec_fn(int) -> bool {
    |k: int| s[k] == ':' && s[k + 1] == ':'
}

/// A path naming an entry inside a ZIP archive, `archive::entry`, split at
/// its first `::`.
pub open spec fn zip_member_of(path: Seq<char>) -> Option<(Seq<char>, Seq<char>)> {
    match crate::text::first_from(path.len() - 1, 0, sep_at(path)) {
        Some(k) => Some((path.take(k), path.skip(k + 2))),
        None => None,
    }
}

/// Splits `archive::entry` at its first `::`.
pub fn split_zip_member(path: &str) -> (r: Option<(String, String)>)
    ensures
        match r {
            Some((a, e)) => zip_member_of(path@) == Some((a@, e@)),
            None => zip_member_of(path@) is None,
        },
{
    let c = to_chars(path);
    let ghost p = sep_at(c@);
    let mut k: usize = 0;
    while k < c.len() && k + 1 < c.len()
        invariant
            c@ == path@,
            p == sep_at(c@),
            k <= c@.len(),
            crate::text::first_from(c@.len() - 1, 0, p) == crate::text::first_from(c@.len() - 1, k as int, p),
        decreases c@.len() - k,
    {
        if c[k] == ':' && c[k + 1] == ':' {
            let mut a: Vec<char> = Vec::new();
            let mut i: usize = 0;
            while i < k
                invariant
                    i <= k < c@.len(),
                    a@ == c@.take(i as int),
                decreases k - i,
            {
                a.push(c[i]);
                i += 1;
                assert(a@ =~= c@.take(i as int));
            }
            let mut e: Vec<char> = Vec::new();
            let mut j: usize = k + 2;
            while j < c.len()
                invariant
                    k + 2 <= j <= c@.len(),
                    e@ == c@.subrange(k + 2, j as int),
                decreases c@.len() - j,
            {
                e.push(c[j]);
                j += 1;
                assert(e@ =~= c@.subrange(k + 2, j as int));
            }
            assert(e@ =~= c@.skip(k + 2));
            return Some((from_chars(a.as_slice()), from_chars(e.as_slice())));
        }
        k += 1;
    }
    None
}

/// Where a module's bytes come from, as read by the caller: a file, or an
/// entry of a ZIP archive (the archive's path and bytes, and the entry's name).
#[derive(Debug)]
pub enum SourceBytes {
    /// The bytes of a file, or why it could not be read.
    File(Result<Vec<u8>, String>),
    /// The archive's path, the entry's name, and the archive's bytes (or
    /// why it could not be opened).
    Zip(String, String, Result<Vec<u8>, String>),
}

/// The decoded source of a module, or why it could not be read.
pub open spec fn module_text_spec(name: Seq<char>, path: Seq<char>, b: SourceBytes) -> Result<Seq<char>, Seq<char>> {
    let prefix = "read module "@ + str_debug(name) + " ("@ + path + "): "@;
    match b {
        SourceBytes::File(Err(e)) => Err(prefix + "read file "@ + path + ": "@ + e@),
        SourceBytes::Zip(z, _, Err(e)) => Err(prefix + "open zip file "@ + z@ + ": "@ + e@),
        SourceBytes::File(Ok(bytes)) => match crate::encoding::decoded_source(bytes@, path) {
            Ok(t) => Ok(t),
            Err(e) => Err(prefix + e),
        },
        SourceBytes::Zip(z, entry, Ok(archive)) => match zip_entry_read(archive@, entry@) {
            Err((stage, e)) => if stage == 0 {
                Err(prefix + "read zip "@ + z@ + ": "@ + e)
            } else if stage == 1 {
                Err(prefix + "entry "@ + entry@ + " in "@ + z@ + ": "@ + e)
            } else {
                Err(prefix + "read "@ + entry@ + " from "@ + z@ + ": "@ + e)
            },
            Ok(bytes) => match crate::encoding::decoded_source(bytes, path) {
                Ok(t) => Ok(t),
                Err(e) => Err(prefix + e),
            },
        },
    }
}

/// Decodes a module's source from the bytes the caller read (see
/// `module_text_spec`); errors name the module and its file.
pub fn read_module_source(name: &str, file_path: &str, bytes: SourceBytes) -> (r: Result<String, String>)
    ensures
        crate::text::res_view(r) == module_text_spec(name@, file_path@, bytes),
{
    let ghost b0 = bytes;
    let mut prefix = to_chars("read module ");
    let d = debug_str(name);
    push_str(&mut prefix, d.as_str());
    push_str(&mut prefix, " (");
    push_str(&mut prefix, file_path);
    push_str(&mut prefix, "): ");
    let decoded = match bytes {
        SourceBytes::File(Err(e)) => {
            push_str(&mut prefix, "read file ");
            push_str(&mut prefix, file_path);
            push_str(&mut prefix, ": ");
            push_str(&mut prefix, e.as_str());
            return Err(from_chars(prefix.as_slice()));
        },
        SourceBytes::Zip(z, _, Err(e)) => {
            push_str(&mut prefix, "open zip file ");
            push_str(&mut prefix, z.as_str());
            push_str(&mut prefix, ": ");
            push_str(&mut prefix, e.as_str());
            return Err(from_chars(prefix.as_slice()));
        },
        SourceBytes::File(Ok(b)) => crate::encoding::decode_python_source(b.as_slice(), file_path),
        SourceBytes::Zip(z, entry, Ok(archive)) => match read_zip_entry(archive.as_slice(), entry.as_str()) {
            Err(ZipEntryError::Archive(e)) => {
                push_str(&mut prefix, "read zip ");
                push_str(&mut prefix, z.as_str());
                push_str(&mut prefix, ": ");
                push_str(&mut prefix, e.as_str());
                return Err(from_chars(prefix.as_slice()));
            },
            Err(ZipEntryError::Entry(e)) => {
                push_str(&mut prefix, "entry ");
                push_str(&mut prefix, entry.as_str());
                push_str(&mut prefix, " in ");
                push_str(&mut prefix, z.as_str());
                push_str(&mut prefix, ": ");
                push_str(&mut prefix, e.as_str());
                return Err(from_chars(prefix.as_slice()));
            },
            Err(ZipEntryError::Read(e)) => {
                push_str(&mut prefix, "read ");
                push_str(&mut prefix, entry.as_str());
                push_str(&mut prefix, " from ");
                push_str(&mut prefix, z.as_str());
                push_str(&mut prefix, ": ");
                push_str(&mut prefix, e.as_str());
                return Err(from_chars(prefix.as_slice()));
            },
            Ok(b) => crate::encoding::decode_python_source(b.as_slice(), file_path),
        },
    };
    match decoded {
        Ok(t) => Ok(t),
        Err(e) => {
            push_str(&mut prefix, e.as_str());
            Err(from_chars(prefix.as_slice()))
        },
    }
}


/// What reading a module's source gives: its text, a source that stays a
/// runtime dependency (its declared codec is one only the interpreter
/// has; the text is why it cannot be bundled), or an error.
#[derive(Debug)]
pub enum SourceOutcome {
    /// The decoded source.
    Text(String),
    /// Left to the interpreter, with the decoding error.
    Runtime(String),
    /// The source could not be read or decoded.
    Failed(String),
}

/// The bytes of the module's file or archive entry, when they were read.
pub open spec fn raw_module_bytes(b: SourceBytes) -> Option<Seq<u8>> {
    match b {
        SourceBytes::File(Ok(v)) => Some(v@),
        SourceBytes::Zip(_, entry, Ok(archive)) => match zip_entry_read(archive@, entry@) {
            Ok(v) => Some(v),
            Err(_) => None,
        },
        _ => None,
    }
}

/// Whether the module's bytes were read and declare an unsupported codec.
pub open spec fn left_to_interpreter(b: SourceBytes) -> bool {
    raw_module_bytes(b) matches Some(v) && crate::encoding::unsupported_codec(v)
}

/// Reads a module's source (see `module_text_spec`), telling apart a source
/// in a codec that only the interpreter has: such a module stays a runtime
/// dependency rather than failing the run.
pub fn module_source_outcome(name: &str, file_path: &str, bytes: SourceBytes) -> (r: SourceOutcome)
    ensures
        match r {
            SourceOutcome::Runtime(e) => left_to_interpreter(bytes) && module_text_spec(
                name@,
                file_path@,
                bytes,
            ) == Err::<Seq<char>, Seq<char>>(e@),
            SourceOutcome::Text(t) => !left_to_interpreter(bytes) && module_text_spec(
                name@,
                file_path@,
                bytes,
            ) == Ok::<Seq<char>, Seq<char>>(t@),
            SourceOutcome::Failed(e) => !left_to_interpreter(bytes) && module_text_spec(
                name@,
                file_path@,
                bytes,
            ) == Err::<Seq<char>, Seq<char>>(e@),
        },
{
    let runtime = match &bytes {
        SourceBytes::File(Ok(v)) => crate::encoding::declares_unsupported_codec(v.as_slice()),
        SourceBytes::Zip(_, entry, Ok(archive)) => match read_zip_entry(archive.as_slice(), entry.as_str()) {
            Ok(v) => crate::encoding::declares_unsupported_codec(v.as_slice()),
            Err(_) => false,
        },
        _ => false,
    };
    let ghost b0 = bytes;
    match read_module_source(name, file_path, bytes) {
        Ok(t) => {
            if runtime {
                proof {
                    lemma_unsupported_fails(name@, file_path@, b0);
                }
            }
            SourceOutcome::Text(t)
        },
        Err(e) => if runtime {
            SourceOutcome::Runtime(e)
        } else {
            SourceOutcome::Failed(e)
        },
    }
}

/// A source in an unsupported codec cannot be decoded.
proof fn lemma_unsupported_fails(name: Seq<char>, path: Seq<char>, b: SourceBytes)
    requires
        left_to_interpreter(b),
    ensures
        module_text_spec(name, path, b) is Err,
{
}

} // verus!
