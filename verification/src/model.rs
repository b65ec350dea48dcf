//! The data the bundler works on: options, the modules of the bundle graph
//! and what analysis found in each, and the result handed back.
use vstd::prelude::*;
use crate::order::{seq_lt, lemma_lt_trichotomy, lemma_lt_transitive, chars_lt};
use crate::text::{chars_eq, to_chars};

verus! {

/// The default limit on imported modules.
pub const DEFAULT_MAX_IMPORTED_MODULES: usize = 2048;

/// Configuration for bundling.
#[derive(Clone, Debug, PartialEq, Eq)]
pub struct BundleOptions {
    /// Top-level package names that stay external (not bundled).
    pub external: Vec<String>,
    /// Maximum number of imported modules allowed during graph expansion.
    pub max_imported_modules: usize,
    /// Python interpreters used to discover `sys.path` entries; none by default.
    pub interpreter: Vec<String>,
    /// Whether imports resolved through `sys.path` need a `# bundle` directive.
    pub require_bundle_directive: bool,
    /// Whether unused imports are removed (those marked `# bundle` stay).
    pub tree_shaking: bool,
    /// Whether the bundle is formatted with Ruff.
    pub format: bool,
}

impl Default for BundleOptions {
    fn default() -> (r: Self)
        ensures
            r.external@.len() == 0,
            r.max_imported_modules == DEFAULT_MAX_IMPORTED_MODULES,
            r.interpreter@.len() == 0,
            r.require_bundle_directive,
            r.tree_shaking,
            !r.format,
    {
        BundleOptions {
            external: Vec::new(),
            max_imported_modules: DEFAULT_MAX_IMPORTED_MODULES,
            interpreter: Vec::new(),
            require_bundle_directive: true,
            tree_shaking: true,
            format: false,
        }
    }
}

/// Metadata for a module included in the bundle graph.
#[derive(Clone, Debug, PartialEq, Eq)]
pub struct BundledModule {
    /// Dotted module name, for example `pkg.sub.module`.
    pub name: String,
    /// Original file path used to load this module.
    pub file_path: String,
    /// Whether the module represents a package (`__init__.py`).
    pub is_package: bool,
    /// Whether the package node was synthesized to preserve package hierarchy.
    pub synthetic: bool,
}

/// What bundling returns.
#[derive(Clone, Debug, PartialEq, Eq)]
pub struct BundleResult {
    /// Generated bundled Python code.
    pub code: String,
    /// Canonical absolute path of the entry file.
    pub entry_file: String,
    /// Dotted module name of the entry file.
    pub entry_module: String,
    /// All modules included in the resolved dependency graph, by name.
    pub bundled_module_list: Vec<BundledModule>,
}

/// One import found in a module.
#[derive(Debug)]
pub struct ImportRequest {
    /// The imported name as written (relative names without their dots).
    pub module_name: String,
    /// Zero-based line of the import.
    pub line: usize,
    /// Whether the import is relative.
    pub is_relative: bool,
    /// The number of leading dots of a relative import.
    pub relative_level: usize,
    /// Whether failing to resolve the import is an error.
    pub must_resolve: bool,
    /// Whether the parent packages of the name are bundled too.
    pub require_parent_packages: bool,
    /// Whether a `# bundle` directive marks the import.
    pub force_bundle: bool,
    /// Whether the import is `from <module> import *`.
    pub expand_all: bool,
}

/// What the analysis of one module found.
#[derive(Debug)]
pub struct ModuleAnalysis {
    /// The imports, in source order.
    pub import_requests: Vec<ImportRequest>,
    /// The names a static `__all__` declares.
    pub all_names: Vec<String>,
}

/// A module of the bundle graph.
#[derive(Debug)]
pub struct ModuleData {
    /// Dotted module name.
    pub name: String,
    /// The file the module is loaded from.
    pub file_path: String,
    /// Whether the module is a package.
    pub is_package: bool,
    /// Whether the module is a namespace package made up for the bundle.
    pub synthetic: bool,
    /// Whether imports found through `sys.path` may be bundled from it.
    pub allow_sys_path_imports: bool,
    /// The decoded (and possibly tree-shaken) source; empty until the
    /// module is analyzed.
    pub source: String,
}

/// Whether the modules are sorted strictly by name.
pub open spec fn names_sorted(s: Seq<ModuleData>) -> bool {
    forall|i: int, j: int| 0 <= i < j < s.len() ==> seq_lt(s[i].name@, s[j].name@)
}

/// Whether some module has the given name.
pub open spec fn has_name(s: Seq<ModuleData>, name: Seq<char>) -> bool {
    exists|i: int| 0 <= i < s.len() && s[i].name@ == name
}

/// A module as values: name, file, package, synthetic, whether imports
/// through `sys.path` may be bundled from it, and its source.
pub type ModView = (Seq<char>, Seq<char>, bool, bool, bool, Seq<char>);

/// The view of a module.
pub open spec fn mod_view(m: ModuleData) -> ModView {
    (m.name@, m.file_path@, m.is_package, m.synthetic, m.allow_sys_path_imports, m.source@)
}

/// The views of modules.
pub open spec fn mod_views(s: Seq<ModuleData>) -> Seq<ModView> {
    s.map_values(|m: ModuleData| mod_view(m))
}

/// Whether module views are sorted strictly by name.
pub open spec fn views_sorted(s: Seq<ModView>) -> bool {
    forall|i: int, j: int| 0 <= i < j < s.len() ==> seq_lt(s[i].0, s[j].0)
}

/// Where a module named `n` goes in views sorted by name.
pub open spec fn insert_pos(s: Seq<ModView>, n: Seq<char>) -> int
    decreases s.len(),
{
    if s.len() == 0 {
        0
    } else if seq_lt(s.last().0, n) {
        s.len() as int
    } else {
        insert_pos(s.drop_last(), n)
    }
}

/// The sorted position lies within the views.
pub proof fn lemma_insert_pos_bounds(s: Seq<ModView>, n: Seq<char>)
    ensures
        0 <= insert_pos(s, n) <= s.len(),
    decreases s.len(),
{
    if s.len() > 0 {
        lemma_insert_pos_bounds(s.drop_last(), n);
    }
}

/// The position of the module named `n`, if there is one.
pub open spec fn find_mod(s: Seq<ModView>, n: Seq<char>) -> Option<int> {
    if exists|i: int| 0 <= i < s.len() && (#[trigger] s[i]).0 == n {
        Some(choose|i: int| 0 <= i < s.len() && (#[trigger] s[i]).0 == n)
    } else {
        None
    }
}

/// In sorted views a name is at one position only.
pub proof fn lemma_find_mod(s: Seq<ModView>, n: Seq<char>, i: int)
    requires
        views_sorted(s),
        0 <= i < s.len(),
        s[i].0 == n,
    ensures
        find_mod(s, n) == Some(i),
{
    assert(exists|k: int| 0 <= k < s.len() && (#[trigger] s[k]).0 == n);
    let j = find_mod(s, n)->0;
    assert(0 <= j < s.len() && s[j].0 == n);
    if j < i {
        assert(seq_lt(s[j].0, s[i].0));
        lemma_lt_trichotomy(s[j].0, s[i].0);
        assert(false);
    } else if j > i {
        assert(seq_lt(s[i].0, s[j].0));
        lemma_lt_trichotomy(s[i].0, s[j].0);
        assert(false);
    }
    assert(j == i);
}

/// The sorted position is after every smaller name and before every larger one.
proof fn lemma_insert_pos(s: Seq<ModView>, n: Seq<char>, p: int)
    requires
        views_sorted(s),
        0 <= p <= s.len(),
        forall|k: int| 0 <= k < p ==> seq_lt(#[trigger] s[k].0, n),
        forall|k: int| p <= k < s.len() ==> seq_lt(n, #[trigger] s[k].0),
    ensures
        insert_pos(s, n) == p,
    decreases s.len(),
{
    if s.len() > 0 {
        if p == s.len() {
        } else {
            lemma_lt_trichotomy(n, s.last().0);
            assert(seq_lt(n, s[s.len() - 1].0));
            lemma_insert_pos(s.drop_last(), n, p);
        }
    }
}

fn name_lt_at(entries: &Vec<ModuleData>, p: usize, name: &[char]) -> (r: bool)
    requires
        p < entries@.len(),
    ensures
        r == seq_lt(entries@[p as int].name@, name@),
{
    let c = to_chars(entries[p].name.as_str());
    chars_lt(c.as_slice(), name)
}

/// The modules of a bundle graph, one per name, kept sorted by name.
#[derive(Debug)]
pub struct ModuleMap {
    entries: Vec<ModuleData>,
}

impl ModuleMap {
    /// The modules, sorted by name.
    pub closed spec fn modules(self) -> Seq<ModuleData> {
        self.entries@
    }

    #[verifier::type_invariant]
    spec fn sorted(self) -> bool {
        names_sorted(self.entries@)
    }

    /// An empty map.
    pub fn new() -> (r: Self)
        ensures
            r.modules() == Seq::<ModuleData>::empty(),
    {
        ModuleMap { entries: Vec::new() }
    }

    /// The number of modules.
    pub fn len(&self) -> (r: usize)
        ensures
            r == self.modules().len(),
    {
        self.entries.len()
    }

    /// The modules, sorted by name.
    pub fn entries(&self) -> (r: &[ModuleData])
        ensures
            r@ == self.modules(),
            names_sorted(r@),
    {
        proof {
            use_type_invariant(self);
        }
        self.entries.as_slice()
    }

    /// The position of the module with the given name.
    pub fn find(&self, name: &[char]) -> (r: Option<usize>)
        ensures
            names_sorted(self.modules()),
            match r {
                Some(i) => i < self.modules().len() && self.modules()[i as int].name@ == name@,
                None => !has_name(self.modules(), name@),
            },
    {
        proof {
            use_type_invariant(self);
        }
        let mut i: usize = 0;
        while i < self.entries.len()
            invariant
                i <= self.entries@.len(),
                names_sorted(self.entries@),
                forall|k: int| 0 <= k < i ==> self.entries@[k].name@ != name@,
            decreases self.entries@.len() - i,
        {
            let c = to_chars(self.entries[i].name.as_str());
            if chars_eq(c.as_slice(), name) {
                return Some(i);
            }
            i += 1;
        }
        None
    }

    /// Adds a module whose name is not in the map yet, at its sorted place.
    pub fn insert(&mut self, m: ModuleData)
        requires
            !has_name(old(self).modules(), m.name@),
        ensures
            names_sorted(final(self).modules()),
            final(self).modules() == old(self).modules().insert(
                insert_pos(mod_views(old(self).modules()), m.name@),
                m,
            ),
    {
        proof {
            use_type_invariant(&*self);
        }
        let name = to_chars(m.name.as_str());
        let mut p: usize = 0;
        while p < self.entries.len() && name_lt_at(&self.entries, p, name.as_slice())
            invariant
                p <= self.entries@.len(),
                names_sorted(self.entries@),
                forall|k: int| 0 <= k < p ==> seq_lt(#[trigger] self.entries@[k].name@, name@),
            decreases self.entries@.len() - p,
        {
            p += 1;
        }
        let ghost before = self.entries@;
        proof {
            assert forall|j: int| p <= j < before.len() implies seq_lt(
                name@,
                #[trigger] before[j].name@,
            ) by {
                lemma_lt_trichotomy(before[p as int].name@, name@);
                assert(before[p as int].name@ != name@);
                if j > p {
                    lemma_lt_transitive(name@, before[p as int].name@, before[j].name@);
                }
            }
        }
        let mut v: Vec<ModuleData> = Vec::new();
        std::mem::swap(&mut v, &mut self.entries);
        v.insert(p, m);
        assert(names_sorted(v@)) by {
            assert forall|i: int, j: int| 0 <= i < j < v@.len() implies seq_lt(
                v@[i].name@,
                v@[j].name@,
            ) by {
                if i < p && j == p {
                } else if i < p && j > p {
                    assert(v@[j] == before[j - 1]);
                } else if i == p {
                    assert(v@[j] == before[j - 1]);
                } else if i > p {
                    assert(v@[i] == before[i - 1]);
                    assert(v@[j] == before[j - 1]);
                }
            }
        }
        proof {
            let sv = mod_views(before);
            assert(views_sorted(sv));
            lemma_insert_pos(sv, name@, p as int);
        }
        self.entries = v;
    }

    /// Takes the module at position `i` out, leaving a placeholder with the
    /// same name, so that it can be changed and put back.
    fn take(&mut self, i: usize) -> (r: ModuleData)
        requires
            i < old(self).modules().len(),
        ensures
            r == old(self).modules()[i as int],
            final(self).modules().len() == old(self).modules().len(),
            final(self).modules()[i as int].name == r.name,
            forall|k: int|
                0 <= k < old(self).modules().len() && k != i ==> final(self).modules()[k] == old(
                    self,
                ).modules()[k],
    {
        proof {
            use_type_invariant(&*self);
        }
        let mut v: Vec<ModuleData> = Vec::new();
        std::mem::swap(&mut v, &mut self.entries);
        let ghost before = v@;
        let m = v.remove(i);
        let placeholder = ModuleData {
            name: m.name.clone(),
            file_path: String::new(),
            is_package: false,
            synthetic: false,
            allow_sys_path_imports: false,
            source: String::new(),
        };
        v.insert(i, placeholder);
        assert(names_sorted(v@)) by {
            assert forall|a: int, b: int| 0 <= a < b < v@.len() implies seq_lt(
                v@[a].name@,
                v@[b].name@,
            ) by {
                assert(v@[a].name@ == before[a].name@);
                assert(v@[b].name@ == before[b].name@);
            }
        }
        self.entries = v;
        m
    }

    /// Removes the module at position `i`.
    pub fn remove(&mut self, i: usize)
        requires
            i < old(self).modules().len(),
        ensures
            final(self).modules() == old(self).modules().remove(i as int),
    {
        proof {
            use_type_invariant(&*self);
        }
        let mut v: Vec<ModuleData> = Vec::new();
        std::mem::swap(&mut v, &mut self.entries);
        let ghost before = v@;
        let _ = v.remove(i);
        assert(names_sorted(v@)) by {
            assert forall|a: int, b: int| 0 <= a < b < v@.len() implies seq_lt(
                v@[a].name@,
                v@[b].name@,
            ) by {
                let a0 = if a < i { a } else { a + 1 };
                let b0 = if b < i { b } else { b + 1 };
                assert(v@[a].name@ == before[a0].name@);
                assert(v@[b].name@ == before[b0].name@);
            }
        }
        self.entries = v;
    }

    /// Puts a module back at position `i`, where a module of the same name was.
    fn put(&mut self, i: usize, m: ModuleData)
        requires
            i < old(self).modules().len(),
            old(self).modules()[i as int].name@ == m.name@,
        ensures
            final(self).modules() == old(self).modules().update(i as int, m),
    {
        proof {
            use_type_invariant(&*self);
        }
        let mut v: Vec<ModuleData> = Vec::new();
        std::mem::swap(&mut v, &mut self.entries);
        let ghost before = v@;
        let _ = v.remove(i);
        v.insert(i, m);
        assert(v@ =~= before.update(i as int, m));
        assert(names_sorted(v@)) by {
            assert forall|a: int, b: int| 0 <= a < b < v@.len() implies seq_lt(
                v@[a].name@,
                v@[b].name@,
            ) by {
                assert(v@[a].name@ == before[a].name@);
                assert(v@[b].name@ == before[b].name@);
            }
        }
        self.entries = v;
    }

    /// Marks the module at position `i` as allowed to bundle imports found
    /// through `sys.path`.
    pub fn allow_sys_path(&mut self, i: usize)
        requires
            i < old(self).modules().len(),
        ensures
            final(self).modules() == old(self).modules().update(
                i as int,
                ModuleData { allow_sys_path_imports: true, ..old(self).modules()[i as int] },
            ),
    {
        let mut m = self.take(i);
        m.allow_sys_path_imports = true;
        self.put(i, m);
        assert(self.modules() =~= old(self).modules().update(
            i as int,
            ModuleData { allow_sys_path_imports: true, ..old(self).modules()[i as int] },
        ));
    }

    /// Stores the source of the module at position `i`.
    pub fn set_source(&mut self, i: usize, source: String)
        requires
            i < old(self).modules().len(),
        ensures
            final(self).modules() == old(self).modules().update(
                i as int,
                ModuleData { source, ..old(self).modules()[i as int] },
            ),
    {
        let mut m = self.take(i);
        m.source = source;
        self.put(i, m);
        assert(self.modules() =~= old(self).modules().update(
            i as int,
            ModuleData { source, ..old(self).modules()[i as int] },
        ));
    }
}

} // verus!
