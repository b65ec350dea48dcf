//! Growing the bundle graph from the entry module: each module taken from
//! the queue is analyzed (outside the library: reading, tree shaking and
//! parsing), and each of its imports is resolved and included, together
//! with the parent packages it needs. The work is a state machine: each
//! step either does one piece of work or asks the caller for what only the
//! caller can observe (a module's analysis, the contents of a directory).
use vstd::prelude::*;
use crate::analyzer::{ReqView, req_view, req_views};
use crate::graph::{
    GraphView, ImportedModuleBudget, drop_module, ensure_parent_packages, fresh_module, graph_wf, gview,
    include_resolved_module, include_spec, parent_name, parents_known, parents_spec,
};
use crate::model::{ImportRequest, ModuleData, ModuleMap, mod_views, find_mod, insert_pos};
use crate::names::{
    str_debug, debug_str, relative_module_name, is_external, is_builtin_name,
    resolve_relative_module_name, should_preserve_external_import, is_guaranteed_builtin,
};
use crate::resolver::{
    DirProbe, Lookup, LookupSpec, ModuleResolver, ResolvedView, SearchRoot, resolution,
};
use crate::text::{
    chars_eq_str, decimal, decimal_chars, from_chars, push_str, split_chars, split_seq, sviews,
    to_chars, vviews, string_of,
};

verus! {

broadcast use vstd::string::group_string_axioms;

// ---------------------------------------------------------------------------
// Flag lists: names with a flag, looked up by their first occurrence
// ---------------------------------------------------------------------------

/// The position of the first entry for `k`.
pub open spec fn flag_pos(m: Seq<(Seq<char>, bool)>, k: Seq<char>) -> Option<int>
    decreases m.len(),
{
    if m.len() == 0 {
        None
    } else if m[0].0 == k {
        Some(0)
    } else {
        match flag_pos(m.drop_first(), k) {
            Some(j) => Some(j + 1),
            None => None,
        }
    }
}

/// The flag of `k`, if `k` has an entry.
pub open spec fn get_flag(m: Seq<(Seq<char>, bool)>, k: Seq<char>) -> Option<bool> {
    match flag_pos(m, k) {
        Some(j) => Some(m[j].1),
        None => None,
    }
}

/// The list with the flag of `k` set to `v`.
pub open spec fn set_flag(m: Seq<(Seq<char>, bool)>, k: Seq<char>, v: bool) -> Seq<(Seq<char>, bool)> {
    match flag_pos(m, k) {
        Some(j) => m.update(j, (k, v)),
        None => m.push((k, v)),
    }
}

/// The list without the entry of `k`.
pub open spec fn remove_flag(m: Seq<(Seq<char>, bool)>, k: Seq<char>) -> Seq<(Seq<char>, bool)> {
    match flag_pos(m, k) {
        Some(j) => m.remove(j),
        None => m,
    }
}

/// The view of a flag list.
pub open spec fn flags_view(v: Seq<(String, bool)>) -> Seq<(Seq<char>, bool)> {
    v.map_values(|e: (String, bool)| (e.0@, e.1))
}

proof fn lemma_flag_pos(m: Seq<(Seq<char>, bool)>, k: Seq<char>, i: int)
    requires
        0 <= i <= m.len(),
        forall|j: int| 0 <= j < i ==> (#[trigger] m[j]).0 != k,
    ensures
        flag_pos(m, k) == match flag_pos(m.skip(i), k) {
            Some(j) => Some(j + i),
            None => None::<int>,
        },
    decreases i,
{
    if i > 0 {
        assert(m.drop_first().skip(i - 1) =~= m.skip(i));
        assert forall|j: int| 0 <= j < i - 1 implies (#[trigger] m.drop_first()[j]).0 != k by {
            assert(m.drop_first()[j] == m[j + 1]);
        }
        lemma_flag_pos(m.drop_first(), k, i - 1);
        assert(m[0].0 != k);
    } else {
        assert(m.skip(0) =~= m);
    }
}

/// The position of the first entry for `k`.
fn find_flag(m: &Vec<(String, bool)>, k: &[char]) -> (r: Option<usize>)
    ensures
        match r {
            Some(j) => flag_pos(flags_view(m@), k@) == Some(j as int) && j < m@.len(),
            None => flag_pos(flags_view(m@), k@) is None,
        },
{
    let ghost fv = flags_view(m@);
    let mut i: usize = 0;
    while i < m.len()
        invariant
            i <= m@.len(),
            fv == flags_view(m@),
            forall|j: int| 0 <= j < i ==> (#[trigger] fv[j]).0 != k@,
        decreases m@.len() - i,
    {
        let c = to_chars(m[i].0.as_str());
        if crate::text::chars_eq(c.as_slice(), k) {
            proof {
                lemma_flag_pos(fv, k@, i as int);
                assert(fv.skip(i as int)[0].0 == k@);
            }
            return Some(i);
        }
        i += 1;
    }
    proof {
        lemma_flag_pos(fv, k@, i as int);
        assert(fv.skip(i as int).len() == 0);
    }
    None
}

/// Sets the flag of `k` to `v`.
fn set_flag_exec(m: &mut Vec<(String, bool)>, k: &[char], v: bool)
    ensures
        flags_view(final(m)@) == set_flag(flags_view(old(m)@), k@, v),
{
    let ghost before = flags_view(m@);
    match find_flag(m, k) {
        Some(j) => {
            m.set(j, (from_chars(k), v));
            assert(flags_view(m@) =~= before.update(j as int, (k@, v)));
        },
        None => {
            m.push((from_chars(k), v));
            assert(flags_view(m@) =~= before.push((k@, v)));
        },
    }
}

// ---------------------------------------------------------------------------
// What one import does to the graph
// ---------------------------------------------------------------------------

/// The graph together with the pending and completed `*` expansions and
/// whether the entry module is imported by another module.
pub struct BundleView {
    /// The modules, queue and budget.
    pub graph: GraphView,
    /// Packages whose `__all__` is still to be expanded, with whether the
    /// expansion was forced by a `# bundle` directive.
    pub pending: Seq<(Seq<char>, bool)>,
    /// Packages whose `__all__` was expanded, with the same flag.
    pub completed: Seq<(Seq<char>, bool)>,
    /// Whether some module imports the entry module.
    pub force_runtime: bool,
}

/// A module whose imports are being processed, as values: its name,
/// whether it is a package, its file, and whether it may bundle imports
/// found through `sys.path`.
pub type CurView = (Seq<char>, bool, Seq<char>, bool);

/// Where an import stands, for error messages: ` in <file> at line <n>`
/// with `n` counted from one.
pub open spec fn at_line(file: Seq<char>, line: usize) -> Seq<char> {
    " in "@ + file + " at line "@ + decimal((line + 1) as nat)
}

/// The absolute name an import denotes.
pub open spec fn target_spec(cur: CurView, req: ReqView) -> Result<Seq<char>, Seq<char>> {
    if req.2 {
        match relative_module_name(cur.0, cur.1, req.0, req.3 as nat) {
            Ok(t) => Ok(t),
            Err(e) => Err(
                "resolve relative import in "@ + cur.2 + " at line "@ + decimal((req.1 + 1) as nat)
                    + ": "@ + e,
            ),
        }
    } else {
        Ok(req.0)
    }
}

/// Schedules the expansion of a package's `__all__`: a forced expansion
/// is scheduled unless a forced one is already done or pending, an
/// unforced one unless any is.
pub open spec fn expansion_spec(s: BundleView, name: Seq<char>, force: bool) -> BundleView {
    let cf = get_flag(s.completed, name);
    let pf = get_flag(s.pending, name);
    if (force && cf != Some(true) && pf != Some(true)) || (!force && cf is None && pf is None) {
        BundleView {
            pending: set_flag(s.pending, name, force),
            graph: GraphView { queue: s.graph.queue.push(name), ..s.graph },
            ..s
        }
    } else {
        s
    }
}

/// What one import of the module `cur` does. Imports of external or
/// built-in modules are kept as they are. An import that resolves to
/// nothing brings in its parent packages when asked to, and is an error
/// when it must resolve. A module found through `sys.path` is left alone
/// unless the import is marked `# bundle` or `cur` may bundle such
/// imports; otherwise it is included (with its `__all__` expansion
/// scheduled for `from <package> import *`), and its parent packages are
/// made sure of.
pub open spec fn request_spec(
    s: BundleView,
    cur: CurView,
    req: ReqView,
    entry: Seq<char>,
    external: Seq<Seq<char>>,
    roots: Seq<SearchRoot>,
    cache: Seq<DirProbe>,
) -> Result<BundleView, Seq<char>> {
    match target_spec(cur, req) {
        Err(e) => Err(e),
        Ok(t) => if !req.6 && is_external(t, external) {
            Ok(s)
        } else if is_builtin_name(t) {
            Ok(s)
        } else {
            match resolution(roots, t, cache) {
                LookupSpec::NeedProbe(_, _) => Ok(s),
                LookupSpec::Failed(e) => Err(
                    "resolve import "@ + str_debug(t) + at_line(cur.2, req.1) + ": "@ + e,
                ),
                LookupSpec::Found(None) => {
                    let p = if req.5 {
                        parents_spec(s.graph, t, roots, cache, cur.3 || req.6)
                    } else {
                        Ok((false, s.graph))
                    };
                    match p {
                        Err(e) => Err(e),
                        Ok((_, g1)) => if req.4 {
                            Err("failed to resolve import "@ + str_debug(t) + at_line(cur.2, req.1))
                        } else {
                            Ok(BundleView { graph: g1, ..s })
                        },
                    }
                },
                LookupSpec::Found(Some(r)) => if r.4 && !req.6 && !cur.3 {
                    Ok(s)
                } else {
                    let s1 = BundleView { force_runtime: s.force_runtime || r.0 == entry, ..s };
                    let s2 = if req.7 && r.2 && !r.3 {
                        expansion_spec(s1, r.0, req.6)
                    } else {
                        s1
                    };
                    match include_spec(s2.graph, r, cur.3) {
                        Err(e) => Err(e),
                        Ok((changed, g3)) => if changed || req.5 {
                            match parents_spec(g3, t, roots, cache, cur.3 || r.4) {
                                Err(e) => Err(e),
                                Ok((_, g4)) => Ok(BundleView { graph: g4, ..s2 }),
                            }
                        } else {
                            Ok(BundleView { graph: g3, ..s2 })
                        },
                    }
                },
            }
        },
    }
}

/// Whether an import of `t` is kept as it is: its top-level package is
/// external (and the import not marked `# bundle`), or it is built in.
pub open spec fn skipped(t: Seq<char>, req: ReqView, external: Seq<Seq<char>>) -> bool {
    (!req.6 && is_external(t, external)) || is_builtin_name(t)
}

/// Whether `name` and its parents all resolve without a further probe.
pub open spec fn known_with_parents(roots: Seq<SearchRoot>, name: Seq<char>, cache: Seq<DirProbe>) -> bool {
    !(resolution(roots, name, cache) is NeedProbe) && parents_known(roots, name, cache)
}


// ---------------------------------------------------------------------------
// The state
// ---------------------------------------------------------------------------

/// The analysis kept for a file, so that a file reached under two names is
/// read and analyzed once.
#[derive(Debug)]
struct CachedAnalysis {
    file_path: String,
    requests: Vec<ImportRequest>,
    all_names: Vec<String>,
    source: String,
}

/// The module whose imports are being processed: a snapshot of it taken
/// when its analysis arrived, its imports, and the next one to process.
#[derive(Debug)]
struct CurrentModule {
    name: String,
    is_package: bool,
    file_path: String,
    allow: bool,
    requests: Vec<ImportRequest>,
    next: usize,
}

/// The state of a bundling run.
#[derive(Debug)]
pub struct BundleState {
    entry_module: String,
    entry_file: String,
    external: Vec<String>,
    modules: ModuleMap,
    queue: Vec<String>,
    budget: ImportedModuleBudget,
    pending: Vec<(String, bool)>,
    completed: Vec<(String, bool)>,
    force_runtime: bool,
    cache: Vec<CachedAnalysis>,
    current: Option<CurrentModule>,
    awaiting: Option<(String, String, bool)>,
}

/// The view of the module being processed.
spec fn cur_info(c: CurrentModule) -> CurView {
    (c.name@, c.is_package, c.file_path@, c.allow)
}

/// `" in <file> at line <line + 1>"`.
fn at_line_exec(file: &str, line: usize) -> (r: Vec<char>)
    ensures
        r@ == at_line(file@, line),
{
    let mut out = to_chars(" in ");
    push_str(&mut out, file);
    push_str(&mut out, " at line ");
    let d = decimal_chars(line as u128 + 1);
    crate::text::push_all(&mut out, d.as_slice());
    out
}

impl BundleState {
    /// The graph, expansions and entry flag.
    pub closed spec fn bview(self) -> BundleView {
        BundleView {
            graph: gview(self.modules.modules(), self.queue@, self.budget),
            pending: flags_view(self.pending@),
            completed: flags_view(self.completed@),
            force_runtime: self.force_runtime,
        }
    }

    /// The entry module's name.
    pub closed spec fn entry(self) -> Seq<char> {
        self.entry_module@
    }

    /// The entry module's file.
    pub closed spec fn entry_file(self) -> Seq<char> {
        self.entry_file@
    }

    /// The external top-level packages.
    pub closed spec fn externals(self) -> Seq<Seq<char>> {
        sviews(self.external@)
    }

    /// Schedules the expansion of `name`'s `__all__` (see `expansion_spec`).
    fn schedule_expansion(&mut self, name: &String, force: bool)
        ensures
            final(self).bview() == expansion_spec(old(self).bview(), name@, force),
            final(self).entry_module == old(self).entry_module,
            final(self).entry_file == old(self).entry_file,
            final(self).external == old(self).external,
            final(self).cache == old(self).cache,
            final(self).current == old(self).current,
            final(self).awaiting == old(self).awaiting,
    {
        let nc = to_chars(name.as_str());
        let cf = find_flag(&self.completed, nc.as_slice());
        let pf = find_flag(&self.pending, nc.as_slice());
        let completed_force = match cf {
            Some(j) => self.completed[j].1,
            None => false,
        };
        let pending_force = match pf {
            Some(j) => self.pending[j].1,
            None => false,
        };
        if (force && !completed_force && !pending_force) || (!force && cf.is_none()
            && pf.is_none()) {
            set_flag_exec(&mut self.pending, nc.as_slice(), force);
            let ghost q = self.queue@;
            self.queue.push(name.clone());
            assert(sviews(self.queue@) =~= sviews(q).push(name@));
        }
    }

    /// Processes one import of the module `cur` (see `request_spec`), given
    /// that its target and the target's parents resolve without a probe.
    fn apply_request(
        &mut self,
        cur: &CurrentModule,
        req: &ImportRequest,
        resolver: &ModuleResolver,
        cache: &[DirProbe],
    ) -> (r: Result<(), String>)
        requires
            match target_spec(cur_info(*cur), req_view(*req)) {
                Ok(t) => skipped(t, req_view(*req), old(self).externals()) || known_with_parents(
                    resolver.roots@,
                    t,
                    cache@,
                ),
                Err(_) => true,
            },
        ensures
            match request_spec(
                old(self).bview(),
                cur_info(*cur),
                req_view(*req),
                old(self).entry(),
                old(self).externals(),
                resolver.roots@,
                cache@,
            ) {
                Ok(s) => r is Ok && final(self).bview() == s,
                Err(e) => r is Err && r->Err_0@ == e,
            },
            final(self).entry_module == old(self).entry_module,
            final(self).entry_file == old(self).entry_file,
            final(self).external == old(self).external,
            final(self).cache == old(self).cache,
            final(self).current == old(self).current,
            final(self).awaiting == old(self).awaiting,
    {
        let target = if req.is_relative {
            match resolve_relative_module_name(
                cur.name.as_str(),
                cur.is_package,
                req.module_name.as_str(),
                req.relative_level,
            ) {
                Ok(t) => t,
                Err(e) => {
                    let mut msg = to_chars("resolve relative import in ");
                    push_str(&mut msg, cur.file_path.as_str());
                    push_str(&mut msg, " at line ");
                    let d = decimal_chars(req.line as u128 + 1);
                    crate::text::push_all(&mut msg, d.as_slice());
                    push_str(&mut msg, ": ");
                    push_str(&mut msg, e.as_str());
                    return Err(from_chars(msg.as_slice()));
                },
            }
        } else {
            req.module_name.clone()
        };
        if !req.force_bundle && should_preserve_external_import(
            target.as_str(),
            self.external.as_slice(),
        ) {
            return Ok(());
        }
        if is_guaranteed_builtin(target.as_str()) {
            return Ok(());
        }
        match resolver.resolve_module(target.as_str(), cache) {
            Lookup::NeedProbe(_, _) => {
                assert(false);
                Ok(())
            },
            Lookup::Failed(e) => {
                let mut msg = to_chars("resolve import ");
                let d = debug_str(target.as_str());
                push_str(&mut msg, d.as_str());
                let at = at_line_exec(cur.file_path.as_str(), req.line);
                crate::text::push_all(&mut msg, at.as_slice());
                push_str(&mut msg, ": ");
                push_str(&mut msg, e.as_str());
                Err(from_chars(msg.as_slice()))
            },
            Lookup::Found(None) => {
                if req.require_parent_packages {
                    match ensure_parent_packages(
                        target.as_str(),
                        resolver,
                        cache,
                        &mut self.modules,
                        &mut self.queue,
                        &mut self.budget,
                        cur.allow || req.force_bundle,
                    ) {
                        Err(e) => {
                            return Err(e);
                        },
                        Ok(_) => {},
                    }
                }
                if req.must_resolve {
                    let mut msg = to_chars("failed to resolve import ");
                    let d = debug_str(target.as_str());
                    push_str(&mut msg, d.as_str());
                    let at = at_line_exec(cur.file_path.as_str(), req.line);
                    crate::text::push_all(&mut msg, at.as_slice());
                    return Err(from_chars(msg.as_slice()));
                }
                Ok(())
            },
            Lookup::Found(Some(res)) => {
                if res.from_sys_path && !req.force_bundle && !cur.allow {
                    return Ok(());
                }
                let rn = to_chars(res.name.as_str());
                let en = to_chars(self.entry_module.as_str());
                if crate::text::chars_eq(rn.as_slice(), en.as_slice()) {
                    self.force_runtime = true;
                }
                if req.expand_all && res.is_package && !res.synthetic {
                    self.schedule_expansion(&res.name, req.force_bundle);
                }
                let changed = match include_resolved_module(
                    &mut self.modules,
                    &mut self.queue,
                    &mut self.budget,
                    &res,
                    cur.allow,
                ) {
                    Err(e) => {
                        return Err(e);
                    },
                    Ok(c) => c,
                };
                if changed || req.require_parent_packages {
                    match ensure_parent_packages(
                        target.as_str(),
                        resolver,
                        cache,
                        &mut self.modules,
                        &mut self.queue,
                        &mut self.budget,
                        cur.allow || res.from_sys_path,
                    ) {
                        Err(e) => {
                            return Err(e);
                        },
                        Ok(_) => {},
                    }
                }
                Ok(())
            },
        }
    }
}


// ---------------------------------------------------------------------------
// Taking modules from the queue
// ---------------------------------------------------------------------------

/// The imports that expand a package's `__all__`: one per listed name
/// that is neither empty nor `*`, each bringing in its parent packages.
pub open spec fn expansion_requests(module: Seq<char>, names: Seq<Seq<char>>, force: bool) -> Seq<
    ReqView,
>
    decreases names.len(),
{
    if names.len() == 0 {
        Seq::<ReqView>::empty()
    } else {
        let prev = expansion_requests(module, names.drop_last(), force);
        let n = names.last();
        if n.len() == 0 || n == "*"@ {
            prev
        } else {
            prev.push((module.push('.') + n, 0usize, false, 0usize, false, true, force, false))
        }
    }
}

/// Starts processing the module `name` with its source, imports and
/// `__all__` names: the source is stored, a pending expansion of its
/// `__all__` is moved to the completed ones (a forced one staying forced)
/// and adds the expansion imports after the module's own.
pub open spec fn begin_spec(
    s: BundleView,
    name: Seq<char>,
    source: Seq<char>,
    reqs: Seq<ReqView>,
    all_names: Seq<Seq<char>>,
) -> Result<(BundleView, CurView, Seq<ReqView>), Seq<char>> {
    match find_mod(s.graph.mods, name) {
        None => Err("internal error: missing module "@ + str_debug(name)),
        Some(k) => {
            let m = s.graph.mods[k];
            let mods2 = s.graph.mods.update(k, (m.0, m.1, m.2, m.3, m.4, source));
            let pf = get_flag(s.pending, name);
            let completed2 = match pf {
                Some(f) => set_flag(s.completed, name, get_flag(s.completed, name) == Some(true) || f),
                None => s.completed,
            };
            let reqs2 = match pf {
                Some(f) => reqs + expansion_requests(m.0, all_names, f),
                None => reqs,
            };
            Ok(
                (
                    BundleView {
                        graph: GraphView { mods: mods2, ..s.graph },
                        pending: remove_flag(s.pending, name),
                        completed: completed2,
                        ..s
                    },
                    (m.0, m.2, m.1, m.4),
                    reqs2,
                ),
            )
        },
    }
}

/// The position of the first analysis kept for `path`.
pub open spec fn cache_pos(c: Seq<(Seq<char>, Seq<ReqView>, Seq<Seq<char>>, Seq<char>)>, path: Seq<char>) -> Option<int>
    decreases c.len(),
{
    if c.len() == 0 {
        None
    } else if c[0].0 == path {
        Some(0)
    } else {
        match cache_pos(c.drop_first(), path) {
            Some(j) => Some(j + 1),
            None => None,
        }
    }
}

/// The analysis cache answers from what it keeps: a kept file is found at
/// its first entry, and storing the analysis of a file it missed (as
/// `module_analyzed` does after `analyze_cached_module` asked for it) makes
/// later lookups of that file find exactly that analysis; storing anything
/// moves no earlier hit.
pub proof fn lemma_analysis_cache(
    c: Seq<(Seq<char>, Seq<ReqView>, Seq<Seq<char>>, Seq<char>)>,
    path: Seq<char>,
    stored: (Seq<char>, Seq<ReqView>, Seq<Seq<char>>, Seq<char>),
)
    ensures
        cache_pos(c, path) matches Some(j) ==> 0 <= j < c.len() && c[j].0 == path
            && cache_pos(c.push(stored), path) == Some(j),
        cache_pos(c, path) is None && stored.0 == path ==> cache_pos(c.push(stored), path) == Some(
            c.len() as int,
        ) && c.push(stored)[c.len() as int] == stored,
    decreases c.len(),
{
    if c.len() > 0 {
        assert(c.push(stored).drop_first() =~= c.drop_first().push(stored));
        lemma_analysis_cache(c.drop_first(), path, stored);
    } else {
        assert(c.push(stored) =~= seq![stored]);
        assert(seq![stored].drop_first() =~= Seq::<(Seq<char>, Seq<ReqView>, Seq<Seq<char>>, Seq<char>)>::empty());
    }
}

/// What a step asks of the caller, or reports.
#[derive(Debug)]
pub enum BundleStep {
    /// Analyze this module (name, file, whether it is a package), then
    /// hand the analysis to `module_analyzed`.
    Analyze(String, String, bool),
    /// Probe this directory for this name, then step again.
    Probe(String, String),
    /// Step again.
    Continue,
    /// The graph is complete.
    Done,
    /// Bundling failed with this error.
    Failed(String),
}

/// The view of a kept analysis.
spec fn cached_view(c: CachedAnalysis) -> (Seq<char>, Seq<ReqView>, Seq<Seq<char>>, Seq<char>) {
    (c.file_path@, req_views(c.requests@), sviews(c.all_names@), c.source@)
}

/// A copy of an import request.
fn copy_request(r: &ImportRequest) -> (c: ImportRequest)
    ensures
        req_view(c) == req_view(*r),
{
    ImportRequest {
        module_name: r.module_name.clone(),
        line: r.line,
        is_relative: r.is_relative,
        relative_level: r.relative_level,
        must_resolve: r.must_resolve,
        require_parent_packages: r.require_parent_packages,
        force_bundle: r.force_bundle,
        expand_all: r.expand_all,
    }
}

/// A copy of import requests.
fn copy_requests(v: &[ImportRequest]) -> (c: Vec<ImportRequest>)
    ensures
        req_views(c@) == req_views(v@),
{
    let mut out: Vec<ImportRequest> = Vec::new();
    let mut i: usize = 0;
    while i < v.len()
        invariant
            i <= v@.len(),
            req_views(out@) == req_views(v@).take(i as int),
        decreases v@.len() - i,
    {
        let ghost before = out@;
        out.push(copy_request(&v[i]));
        assert(req_views(out@) =~= req_views(before).push(req_view(v@[i as int])));
        assert(req_views(v@).take(i + 1) =~= req_views(v@).take(i as int).push(req_view(v@[i as int])));
        i += 1;
    }
    assert(req_views(v@).take(v@.len() as int) =~= req_views(v@));
    out
}

/// A copy of strings.
fn copy_strings(v: &[String]) -> (c: Vec<String>)
    ensures
        sviews(c@) == sviews(v@),
{
    let mut out: Vec<String> = Vec::new();
    let mut i: usize = 0;
    while i < v.len()
        invariant
            i <= v@.len(),
            sviews(out@) == sviews(v@).take(i as int),
        decreases v@.len() - i,
    {
        let ghost before = out@;
        out.push(v[i].clone());
        assert(sviews(out@) =~= sviews(before).push(v@[i as int]@));
        assert(sviews(v@).take(i + 1) =~= sviews(v@).take(i as int).push(v@[i as int]@));
        i += 1;
    }
    assert(sviews(v@).take(v@.len() as int) =~= sviews(v@));
    out
}

/// Appends the imports that expand `module`'s `__all__`.
fn push_expansion_requests(out: &mut Vec<ImportRequest>, module: &str, names: &[String], force: bool)
    ensures
        req_views(final(out)@) == req_views(old(out)@) + expansion_requests(
            module@,
            sviews(names@),
            force,
        ),
{
    let mut i: usize = 0;
    assert(req_views(out@) =~= req_views(old(out)@) + expansion_requests(
        module@,
        sviews(names@).take(0),
        force,
    ));
    while i < names.len()
        invariant
            i <= names@.len(),
            req_views(out@) == req_views(old(out)@) + expansion_requests(
                module@,
                sviews(names@).take(i as int),
                force,
            ),
        decreases names@.len() - i,
    {
        let ghost nv = sviews(names@).take(i + 1);
        assert(nv.drop_last() =~= sviews(names@).take(i as int));
        assert(nv.last() == names@[i as int]@);
        let n = to_chars(names[i].as_str());
        if !(n.len() == 0 || crate::text::chars_eq_str(n.as_slice(), "*")) {
            let mut full = to_chars(module);
            full.push('.');
            crate::text::push_all(&mut full, n.as_slice());
            let ghost before = out@;
            out.push(
                ImportRequest {
                    module_name: from_chars(full.as_slice()),
                    line: 0,
                    is_relative: false,
                    relative_level: 0,
                    must_resolve: false,
                    require_parent_packages: true,
                    force_bundle: force,
                    expand_all: false,
                },
            );
            assert(req_views(out@) =~= req_views(before).push(
                (module@.push('.') + n@, 0usize, false, 0usize, false, true, force, false),
            ));
        }
        i += 1;
    }
    assert(sviews(names@).take(names@.len() as int) =~= sviews(names@));
}

impl BundleState {
    /// The module being processed: its snapshot, imports and next import.
    pub closed spec fn current_view(self) -> Option<(CurView, Seq<ReqView>, int)> {
        match self.current {
            Some(c) => Some((cur_info(c), req_views(c.requests@), c.next as int)),
            None => None,
        }
    }

    /// The module whose analysis is awaited: its name and file.
    pub closed spec fn awaiting_view(self) -> Option<(Seq<char>, Seq<char>, bool)> {
        match self.awaiting {
            Some(a) => Some((a.0@, a.1@, a.2)),
            None => None,
        }
    }

    /// The analyses kept by file.
    pub closed spec fn cache_view(self) -> Seq<(Seq<char>, Seq<ReqView>, Seq<Seq<char>>, Seq<char>)> {
        self.cache@.map_values(|c: CachedAnalysis| cached_view(c))
    }

    /// Well formed: every module but the entry was counted against the
    /// budget, which was never exceeded, and the next import of the module
    /// being processed is within its imports.
    pub closed spec fn wf(self) -> bool {
        &&& graph_wf(self.bview().graph)
        &&& crate::graph::holds_module(self.bview().graph, self.entry(), self.entry_file())
        &&& match self.current {
            Some(c) => c.next <= c.requests@.len(),
            None => true,
        }
    }

    /// Starts processing the module `name` (see `begin_spec`).
    fn begin(&mut self, name: &String, source: String, requests: Vec<ImportRequest>, all_names: &[String]) -> (r: Result<(), String>)
        ensures
            match begin_spec(old(self).bview(), name@, source@, req_views(requests@), sviews(all_names@)) {
                Ok((s, c, reqs)) => r is Ok && final(self).bview() == s
                    && final(self).current_view() == Some((c, reqs, 0int)),
                Err(e) => r is Err && r->Err_0@ == e,
            },
            final(self).entry_module == old(self).entry_module,
            final(self).entry_file == old(self).entry_file,
            final(self).external == old(self).external,
            final(self).cache == old(self).cache,
            final(self).awaiting == old(self).awaiting,
    {
        let nc = to_chars(name.as_str());
        let found = self.modules.find(nc.as_slice());
        proof {
            crate::graph::lemma_views_find(self.modules.modules(), nc@);
        }
        let k = match found {
            None => {
                let mut msg = to_chars("internal error: missing module ");
                let d = debug_str(name.as_str());
                push_str(&mut msg, d.as_str());
                return Err(from_chars(msg.as_slice()));
            },
            Some(k) => k,
        };
        let ghost m0 = self.modules.modules()[k as int];
        self.modules.set_source(k, source);
        assert(mod_views(self.modules.modules()) =~= mod_views(old(self).modules.modules()).update(
            k as int,
            (m0.name@, m0.file_path@, m0.is_package, m0.synthetic, m0.allow_sys_path_imports, source@),
        ));
        let entries = self.modules.entries();
        let cur_name = entries[k].name.clone();
        let is_package = entries[k].is_package;
        let file_path = entries[k].file_path.clone();
        let allow = entries[k].allow_sys_path_imports;
        let pf = find_flag(&self.pending, nc.as_slice());
        let mut requests = requests;
        match pf {
            Some(j) => {
                let force = self.pending[j].1;
                let ghost before = flags_view(self.pending@);
                let _ = self.pending.remove(j);
                assert(flags_view(self.pending@) =~= before.remove(j as int));
                let cf = find_flag(&self.completed, nc.as_slice());
                let completed_force = match cf {
                    Some(c) => self.completed[c].1,
                    None => false,
                };
                set_flag_exec(&mut self.completed, nc.as_slice(), completed_force || force);
                push_expansion_requests(&mut requests, cur_name.as_str(), all_names, force);
            },
            None => {},
        }
        self.current = Some(
            CurrentModule { name: cur_name, is_package, file_path, allow, requests, next: 0 },
        );
        Ok(())
    }

    /// A new run from the entry module: the graph holds the entry module
    /// alone (queued, not counted against the budget), the external names
    /// are normalized (see `normalize_external_prefixes`), and nothing is
    /// pending.
    pub fn new(
        entry_module: &str,
        entry_file: &str,
        entry_is_package: bool,
        allow_sys_path_imports: bool,
        external: &[String],
        max_imported_modules: usize,
    ) -> (r: Self)
        ensures
            r.wf(),
            r.entry() == entry_module@,
            r.entry_file() == entry_file@,
            r.externals() == crate::names::external_prefix_set(sviews(external@)),
            r.bview().graph.mods == seq![
                (entry_module@, entry_file@, entry_is_package, false, allow_sys_path_imports, Seq::<char>::empty()),
            ],
            r.bview().graph.queue == seq![entry_module@],
            r.bview().graph.max == max_imported_modules,
            r.bview().graph.count == 0,
            r.bview().pending.len() == 0,
            r.bview().completed.len() == 0,
            !r.bview().force_runtime,
            r.current_view() is None,
            r.awaiting_view() is None,
            r.cache_view().len() == 0,
    {
        let mut modules = ModuleMap::new();
        modules.insert(
            ModuleData {
                name: string_of(entry_module),
                file_path: string_of(entry_file),
                is_package: entry_is_package,
                synthetic: false,
                allow_sys_path_imports,
                source: String::new(),
            },
        );
        let mut queue: Vec<String> = Vec::new();
        queue.push(string_of(entry_module));
        let st = BundleState {
            entry_module: string_of(entry_module),
            entry_file: string_of(entry_file),
            external: crate::names::normalize_external_prefixes(external),
            modules,
            queue,
            budget: ImportedModuleBudget { max_imported_modules, imported_count: 0 },
            pending: Vec::new(),
            completed: Vec::new(),
            force_runtime: false,
            cache: Vec::new(),
            current: None,
            awaiting: None,
        };
        assert(st.bview().graph.mods =~= seq![
            (entry_module@, entry_file@, entry_is_package, false, allow_sys_path_imports, Seq::<char>::empty()),
        ]);
        assert(st.bview().graph.mods[0].0 == entry_module@);
        assert(st.bview().graph.queue =~= seq![entry_module@]);
        assert(st.bview().pending =~= Seq::<(Seq<char>, bool)>::empty());
        assert(st.bview().completed =~= Seq::<(Seq<char>, bool)>::empty());
        assert(st.cache_view() =~= Seq::<(Seq<char>, Seq<ReqView>, Seq<Seq<char>>, Seq<char>)>::empty());
        st
    }
}


// ---------------------------------------------------------------------------
// Steps
// ---------------------------------------------------------------------------

/// The graph with the first queued name taken off.
pub open spec fn popped(s: BundleView) -> BundleView {
    BundleView { graph: GraphView { queue: s.graph.queue.drop_first(), ..s.graph }, ..s }
}

/// Whether the probe of `d` for `n` is what resolving `t` or one of its
/// parents asks for.
pub open spec fn probe_asked(roots: Seq<SearchRoot>, t: Seq<char>, cache: Seq<DirProbe>, d: Seq<char>, n: Seq<char>) -> bool {
    let parts = split_seq(t, '.');
    resolution(roots, t, cache) == LookupSpec::<Option<ResolvedView>>::NeedProbe(d, n) || exists|i: int|
        1 <= i < parts.len() && #[trigger] resolution(roots, parent_name(parts, i), cache)
            == LookupSpec::<Option<ResolvedView>>::NeedProbe(d, n)
}

/// Whether `r` is the error `e`.
pub open spec fn fails_with(r: BundleStep, e: Seq<char>) -> bool {
    r matches BundleStep::Failed(m) && m@ == e
}

/// What processing the next import of the current module does: a probe
/// still needed by its resolution is asked for with nothing changed;
/// otherwise the import is processed (see `request_spec`) and the next one
/// becomes current.
pub open spec fn request_step(
    old: BundleState,
    new: BundleState,
    r: BundleStep,
    c: CurView,
    reqs: Seq<ReqView>,
    i: int,
    roots: Seq<SearchRoot>,
    cache: Seq<DirProbe>,
) -> bool {
    let req = reqs[i];
    match target_spec(c, req) {
        Err(e) => fails_with(r, e),
        Ok(t) => if !skipped(t, req, old.externals()) && !known_with_parents(roots, t, cache) {
            r matches BundleStep::Probe(d, n) && probe_asked(roots, t, cache, d@, n@)
                && new.bview() == old.bview() && new.current_view() == old.current_view()
        } else {
            match request_spec(old.bview(), c, req, old.entry(), old.externals(), roots, cache) {
                Ok(s) => r is Continue && new.bview() == s && new.current_view() == Some((c, reqs, i + 1)),
                Err(e) => fails_with(r, e),
            }
        },
    }
}

/// What taking the next module from the queue does: a name missing from
/// the graph is an error, a synthetic package is passed over, a module
/// whose file was analyzed before starts with that analysis, and any
/// other module's analysis is asked for.
pub open spec fn pop_step(old: BundleState, new: BundleState, r: BundleStep) -> bool {
    let s = old.bview();
    let name = s.graph.queue[0];
    match find_mod(s.graph.mods, name) {
        None => fails_with(r, "internal error: missing queued module "@ + str_debug(name)),
        Some(k) => {
            let m = s.graph.mods[k];
            if m.3 {
                r is Continue && new.bview() == popped(s) && new.current_view() is None
            } else {
                match cache_pos(old.cache_view(), m.1) {
                    Some(j) => {
                        let ca = old.cache_view()[j];
                        match begin_spec(popped(s), name, ca.3, ca.1, ca.2) {
                            Ok((s2, c, rq)) => r is Continue && new.bview() == s2
                                && new.current_view() == Some((c, rq, 0int)),
                            Err(e) => fails_with(r, e),
                        }
                    },
                    None => r matches BundleStep::Analyze(n, p, pk) && n@ == name && p@ == m.1
                        && pk == m.2 && new.bview() == popped(s) && new.current_view() is None
                        && new.awaiting_view() == Some((name, m.1, m.2)),
                }
            }
        },
    }
}

/// Whether `r` asks for the analysis of the awaited module.
pub open spec fn asks_analysis(r: BundleStep, a: (Seq<char>, Seq<char>, bool)) -> bool {
    r matches BundleStep::Analyze(n, p, pk) && n@ == a.0 && p@ == a.1 && pk == a.2
}

/// Finds the analysis kept for `path`.
fn find_cached(cache: &Vec<CachedAnalysis>, path: &[char]) -> (r: Option<usize>)
    ensures
        match r {
            Some(j) => j < cache@.len() && cache_pos(cache@.map_values(|c: CachedAnalysis| cached_view(c)), path@) == Some(j as int),
            None => cache_pos(cache@.map_values(|c: CachedAnalysis| cached_view(c)), path@) is None,
        },
{
    let ghost cv = cache@.map_values(|c: CachedAnalysis| cached_view(c));
    let mut i: usize = 0;
    assert(cv.skip(0) =~= cv);
    while i < cache.len()
        invariant
            i <= cache@.len(),
            cv == cache@.map_values(|c: CachedAnalysis| cached_view(c)),
            cache_pos(cv, path@) == match cache_pos(cv.skip(i as int), path@) {
                Some(j) => Some(j + i),
                None => None::<int>,
            },
        decreases cache@.len() - i,
    {
        assert(cv.skip(i as int).drop_first() =~= cv.skip(i + 1));
        assert(cv.skip(i as int)[0] == cv[i as int]);
        let c = to_chars(cache[i].file_path.as_str());
        if crate::text::chars_eq(c.as_slice(), path) {
            return Some(i);
        }
        i += 1;
    }
    None
}

/// The first probe that resolving `target` or one of its parents still
/// needs, if any.
fn first_missing(resolver: &ModuleResolver, target: &str, cache: &[DirProbe]) -> (r: Option<(String, String)>)
    ensures
        match r {
            Some((d, n)) => probe_asked(resolver.roots@, target@, cache@, d@, n@)
                && !known_with_parents(resolver.roots@, target@, cache@),
            None => known_with_parents(resolver.roots@, target@, cache@),
        },
{
    match resolver.resolve_module(target, cache) {
        Lookup::NeedProbe(d, n) => {
            return Some((d, n));
        },
        _ => {},
    }
    let pc = to_chars(target);
    let parts = split_chars(pc.as_slice(), '.');
    let ghost pv = vviews(parts@);
    if parts.len() < 2 {
        return None;
    }
    let mut prefix: Vec<char> = Vec::new();
    crate::text::push_all(&mut prefix, parts[0].as_slice());
    assert(pv.take(1) =~= seq![pv[0]]);
    let mut i: usize = 1;
    while i < parts.len()
        invariant
            1 <= i <= parts@.len(),
            pv == vviews(parts@),
            pv == split_seq(target@, '.'),
            prefix@ == parent_name(pv, i as int),
            !(resolution(resolver.roots@, target@, cache@) is NeedProbe),
            forall|j: int|
                1 <= j < i ==> !(#[trigger] resolution(resolver.roots@, parent_name(pv, j), cache@) is NeedProbe),
        decreases parts@.len() - i,
    {
        let parent = from_chars(prefix.as_slice());
        match resolver.resolve_module(parent.as_str(), cache) {
            Lookup::NeedProbe(d, n) => {
                return Some((d, n));
            },
            _ => {},
        }
        proof {
            assert(pv.take(i + 1) =~= pv.take(i as int).push(pv[i as int]));
            crate::text::lemma_join_push(pv.take(i as int), pv[i as int], '.');
        }
        prefix.push('.');
        crate::text::push_all(&mut prefix, parts[i].as_slice());
        i += 1;
    }
    None
}

/// Processing an import keeps the graph well formed.
proof fn lemma_request_wf(
    s: BundleView,
    c: CurView,
    req: ReqView,
    entry: Seq<char>,
    external: Seq<Seq<char>>,
    roots: Seq<SearchRoot>,
    cache: Seq<DirProbe>,
)
    requires
        graph_wf(s.graph),
    ensures
        request_spec(s, c, req, entry, external, roots, cache) matches Ok(s2) ==> graph_wf(s2.graph),
{
    match target_spec(c, req) {
        Ok(t) => {
            crate::graph::lemma_parents_wf(s.graph, t, roots, cache, c.3 || req.6);
            match resolution(roots, t, cache) {
                LookupSpec::Found(Some(r)) => {
                    let s1 = BundleView { force_runtime: s.force_runtime || r.0 == entry, ..s };
                    let s2 = if req.7 && r.2 && !r.3 {
                        expansion_spec(s1, r.0, req.6)
                    } else {
                        s1
                    };
                    crate::graph::lemma_include_wf(s2.graph, r, c.3);
                    match include_spec(s2.graph, r, c.3) {
                        Ok((_, g3)) => {
                            crate::graph::lemma_parents_wf(g3, t, roots, cache, c.3 || r.4);
                        },
                        Err(_) => {},
                    }
                },
                _ => {},
            }
        },
        Err(_) => {},
    }
}

/// Starting to process a module keeps every module the graph held.
proof fn lemma_begin_holds(
    s: BundleView,
    name: Seq<char>,
    source: Seq<char>,
    reqs: Seq<ReqView>,
    all_names: Seq<Seq<char>>,
    n: Seq<char>,
    f: Seq<char>,
)
    requires
        crate::graph::holds_module(s.graph, n, f),
    ensures
        begin_spec(s, name, source, reqs, all_names) matches Ok((s2, _, _))
            ==> crate::graph::holds_module(s2.graph, n, f),
{
    match find_mod(s.graph.mods, name) {
        Some(k) => {
            let m = s.graph.mods[k];
            let m2 = (m.0, m.1, m.2, m.3, m.4, source);
            crate::graph::lemma_holds_update(s.graph, GraphView { mods: s.graph.mods.update(k, m2), ..s.graph }, k, m2, n, f);
        },
        None => {},
    }
}

/// Processing an import keeps every module the graph held.
proof fn lemma_request_holds(
    s: BundleView,
    c: CurView,
    req: ReqView,
    entry: Seq<char>,
    external: Seq<Seq<char>>,
    roots: Seq<SearchRoot>,
    cache: Seq<DirProbe>,
    n: Seq<char>,
    f: Seq<char>,
)
    requires
        crate::graph::holds_module(s.graph, n, f),
    ensures
        request_spec(s, c, req, entry, external, roots, cache) matches Ok(s2)
            ==> crate::graph::holds_module(s2.graph, n, f),
{
    match target_spec(c, req) {
        Ok(t) => {
            crate::graph::lemma_parents_holds(s.graph, t, roots, cache, c.3 || req.6, n, f);
            match resolution(roots, t, cache) {
                LookupSpec::Found(Some(r)) => {
                    let s1 = BundleView { force_runtime: s.force_runtime || r.0 == entry, ..s };
                    let s2 = if req.7 && r.2 && !r.3 {
                        expansion_spec(s1, r.0, req.6)
                    } else {
                        s1
                    };
                    crate::graph::lemma_include_holds(s2.graph, r, c.3, n, f);
                    match include_spec(s2.graph, r, c.3) {
                        Ok((_, g3)) => {
                            crate::graph::lemma_parents_holds(g3, t, roots, cache, c.3 || r.4, n, f);
                        },
                        Err(_) => {},
                    }
                },
                _ => {},
            }
        },
        Err(_) => {},
    }
}

impl BundleState {
    /// Does one step of the run (see `request_step` and `pop_step`): while
    /// an analysis is awaited it is asked for again; the imports of the
    /// module being processed are processed one per step; then modules are
    /// taken from the queue until it is empty.
    pub fn step(&mut self, resolver: &ModuleResolver, cache: &[DirProbe]) -> (r: BundleStep)
        requires
            old(self).wf(),
        ensures
            !(r is Failed) ==> final(self).wf(),
            final(self).entry() == old(self).entry(),
            final(self).entry_file() == old(self).entry_file(),
            final(self).externals() == old(self).externals(),
            match old(self).awaiting_view() {
                Some(a) => asks_analysis(r, a) && final(self).bview() == old(self).bview()
                    && final(self).awaiting_view() == old(self).awaiting_view(),
                None => match old(self).current_view() {
                    Some((c, reqs, i)) => if i < reqs.len() {
                        request_step(*old(self), *final(self), r, c, reqs, i, resolver.roots@, cache@)
                    } else {
                        r is Continue && final(self).bview() == old(self).bview()
                            && final(self).current_view() is None
                    },
                    None => if old(self).bview().graph.queue.len() == 0 {
                        r is Done && final(self).bview() == old(self).bview()
                    } else {
                        pop_step(*old(self), *final(self), r)
                    },
                },
            },
    {
        match &self.awaiting {
            Some(a) => {
                return BundleStep::Analyze(a.0.clone(), a.1.clone(), a.2);
            },
            None => {},
        }
        let mut cur_opt: Option<CurrentModule> = None;
        std::mem::swap(&mut cur_opt, &mut self.current);
        match cur_opt {
            Some(c) => {
                if c.next >= c.requests.len() {
                    return BundleStep::Continue;
                }
                let ghost s0 = self.bview();
                let req = &c.requests[c.next];
                proof {
                    lemma_request_wf(s0, cur_info(c), req_view(*req), self.entry(), self.externals(), resolver.roots@, cache@);
                    lemma_request_holds(s0, cur_info(c), req_view(*req), self.entry(), self.externals(), resolver.roots@, cache@, self.entry(), self.entry_file());
                }
                let target = if req.is_relative {
                    resolve_relative_module_name(
                        c.name.as_str(),
                        c.is_package,
                        req.module_name.as_str(),
                        req.relative_level,
                    )
                } else {
                    Ok(req.module_name.clone())
                };
                match target {
                    Ok(t) => {
                        let skip = (!req.force_bundle && should_preserve_external_import(
                            t.as_str(),
                            self.external.as_slice(),
                        )) || is_guaranteed_builtin(t.as_str());
                        if !skip {
                            match first_missing(resolver, t.as_str(), cache) {
                                Some((d, n)) => {
                                    self.current = Some(c);
                                    return BundleStep::Probe(d, n);
                                },
                                None => {},
                            }
                        }
                    },
                    Err(_) => {},
                }
                match self.apply_request(&c, req, resolver, cache) {
                    Ok(()) => {
                        let mut c = c;
                        c.next = c.next + 1;
                        self.current = Some(c);
                        BundleStep::Continue
                    },
                    Err(e) => BundleStep::Failed(e),
                }
            },
            None => {
                if self.queue.len() == 0 {
                    return BundleStep::Done;
                }
                let ghost s0 = self.bview();
                let ghost q0 = self.queue@;
                let name = self.queue.remove(0);
                assert(sviews(self.queue@) =~= sviews(q0).drop_first());
                assert(self.bview() == popped(s0));
                let nc = to_chars(name.as_str());
                let found = self.modules.find(nc.as_slice());
                proof {
                    crate::graph::lemma_views_find(self.modules.modules(), nc@);
                }
                match found {
                    None => {
                        let mut msg = to_chars("internal error: missing queued module ");
                        let d = debug_str(name.as_str());
                        push_str(&mut msg, d.as_str());
                        BundleStep::Failed(from_chars(msg.as_slice()))
                    },
                    Some(k) => {
                        let entries = self.modules.entries();
                        if entries[k].synthetic {
                            return BundleStep::Continue;
                        }
                        let path = entries[k].file_path.clone();
                        let is_package = entries[k].is_package;
                        self.analyze_cached_module(name, path, is_package)
                    },
                }
            },
        }
    }
}

impl BundleState {
    /// Starts processing the module `name` from the analysis kept for its
    /// file, when there is one (see `begin_spec`); otherwise asks for its
    /// analysis and awaits it.
    pub fn analyze_cached_module(&mut self, name: String, path: String, is_package: bool) -> (r: BundleStep)
        requires
            old(self).wf(),
            old(self).current_view() is None,
        ensures
            !(r is Failed) ==> final(self).wf(),
            final(self).entry() == old(self).entry(),
            final(self).entry_file() == old(self).entry_file(),
            final(self).externals() == old(self).externals(),
            final(self).cache_view() == old(self).cache_view(),
            match cache_pos(old(self).cache_view(), path@) {
                Some(j) => {
                    let ca = old(self).cache_view()[j];
                    match begin_spec(old(self).bview(), name@, ca.3, ca.1, ca.2) {
                        Ok((s2, c, rq)) => r is Continue && final(self).bview() == s2
                            && final(self).current_view() == Some((c, rq, 0int)),
                        Err(e) => fails_with(r, e),
                    }
                },
                None => r matches BundleStep::Analyze(n, p, pk) && n@ == name@ && p@ == path@
                    && pk == is_package && final(self).bview() == old(self).bview()
                    && final(self).current_view() is None
                    && final(self).awaiting_view() == Some((name@, path@, is_package)),
            },
    {
        let pc = to_chars(path.as_str());
        match find_cached(&self.cache, pc.as_slice()) {
            Some(j) => {
                let reqs = copy_requests(self.cache[j].requests.as_slice());
                let names = copy_strings(self.cache[j].all_names.as_slice());
                let src = self.cache[j].source.clone();
                proof {
                    lemma_begin_holds(self.bview(), name@, src@, req_views(reqs@), sviews(names@), self.entry(), self.entry_file());
                }
                match self.begin(&name, src, reqs, names.as_slice()) {
                    Ok(()) => BundleStep::Continue,
                    Err(e) => BundleStep::Failed(e),
                }
            },
            None => {
                self.awaiting = Some((name.clone(), path.clone(), is_package));
                BundleStep::Analyze(name, path, is_package)
            },
        }
    }

    /// Hands in the analysis of the awaited module: its imports, its
    /// `__all__` names and its (possibly tree-shaken) source. The analysis
    /// is kept for the module's file, and processing of the module starts
    /// (see `begin_spec`). Without an awaited module this is an error.
    pub fn module_analyzed(&mut self, analysis: crate::model::ModuleAnalysis, source: String) -> (r: BundleStep)
        requires
            old(self).wf(),
        ensures
            !(r is Failed) ==> final(self).wf(),
            final(self).entry() == old(self).entry(),
            final(self).entry_file() == old(self).entry_file(),
            final(self).externals() == old(self).externals(),
            match old(self).awaiting_view() {
                None => fails_with(r, "internal error: no module analysis is awaited"@),
                Some(a) => final(self).awaiting_view() is None && final(self).cache_view()
                    == old(self).cache_view().push(
                    (a.1, req_views(analysis.import_requests@), sviews(analysis.all_names@), source@),
                ) && match begin_spec(
                    old(self).bview(),
                    a.0,
                    source@,
                    req_views(analysis.import_requests@),
                    sviews(analysis.all_names@),
                ) {
                    Ok((s2, c, rq)) => r is Continue && final(self).bview() == s2
                        && final(self).current_view() == Some((c, rq, 0int)),
                    Err(e) => fails_with(r, e),
                },
            },
    {
        let mut aw: Option<(String, String, bool)> = None;
        std::mem::swap(&mut aw, &mut self.awaiting);
        match aw {
            None => BundleStep::Failed(string_of("internal error: no module analysis is awaited")),
            Some((name, path, _)) => {
                let reqs = copy_requests(analysis.import_requests.as_slice());
                let names = copy_strings(analysis.all_names.as_slice());
                let src = source.clone();
                let ghost cv = self.cache_view();
                self.cache.push(
                    CachedAnalysis {
                        file_path: path,
                        requests: analysis.import_requests,
                        all_names: analysis.all_names,
                        source,
                    },
                );
                assert(self.cache_view() =~= cv.push(
                    (path@, req_views(analysis.import_requests@), sviews(analysis.all_names@), source@),
                ));
                proof {
                    lemma_begin_holds(self.bview(), name@, src@, req_views(reqs@), sviews(names@), self.entry(), self.entry_file());
                }
                match self.begin(&name, src, reqs, names.as_slice()) {
                    Ok(()) => BundleStep::Continue,
                    Err(e) => BundleStep::Failed(e),
                }
            },
        }
    }

    /// Leaves the awaited module out of the bundle, so that importing it
    /// stays a runtime import: its source is in an encoding that only the
    /// interpreter can decode. The entry module cannot be left out: the run
    /// then fails with `reason`, as it does when the module is not in the
    /// graph. Without an awaited module this is an error.
    pub fn module_left_at_runtime(&mut self, reason: String) -> (r: BundleStep)
        requires
            old(self).wf(),
        ensures
            !(r is Failed) ==> final(self).wf(),
            final(self).entry() == old(self).entry(),
            final(self).entry_file() == old(self).entry_file(),
            final(self).externals() == old(self).externals(),
            final(self).cache_view() == old(self).cache_view(),
            match old(self).awaiting_view() {
                None => fails_with(r, "internal error: no module analysis is awaited"@),
                Some(a) => match find_mod(old(self).bview().graph.mods, a.0) {
                    Some(k) => if a.0 != old(self).entry() && old(self).bview().graph.count > 0 {
                        r is Continue && final(self).bview() == BundleView {
                            graph: drop_module(old(self).bview().graph, k),
                            ..old(self).bview()
                        } && final(self).awaiting_view() is None && final(self).current_view()
                            == old(self).current_view()
                    } else {
                        fails_with(r, reason@)
                    },
                    None => fails_with(r, reason@),
                },
            },
    {
        let mut aw: Option<(String, String, bool)> = None;
        std::mem::swap(&mut aw, &mut self.awaiting);
        match aw {
            None => BundleStep::Failed(string_of("internal error: no module analysis is awaited")),
            Some((name, path, is_package)) => {
                let nc = to_chars(name.as_str());
                let found = self.modules.find(nc.as_slice());
                proof {
                    crate::graph::lemma_views_find(self.modules.modules(), name@);
                }
                match found {
                    Some(k) => {
                        if !chars_eq_str(nc.as_slice(), self.entry_module.as_str())
                            && self.budget.imported_count > 0 {
                            proof {
                                crate::graph::lemma_holds_drop(self.bview().graph, k as int, self.entry(), self.entry_file());
                            }
                            crate::graph::drop_module_at(&mut self.modules, &self.queue, &mut self.budget, k);
                            BundleStep::Continue
                        } else {
                            self.awaiting = Some((name, path, is_package));
                            BundleStep::Failed(reason)
                        }
                    },
                    None => {
                        self.awaiting = Some((name, path, is_package));
                        BundleStep::Failed(reason)
                    },
                }
            },
        }
    }

    /// The modules of the graph.
    pub fn modules(&self) -> (r: &ModuleMap)
        ensures
            mod_views(r.modules()) == self.bview().graph.mods,
    {
        &self.modules
    }

    /// The entry module's name.
    pub fn entry_name(&self) -> (r: String)
        ensures
            r@ == self.entry(),
    {
        self.entry_module.clone()
    }

    /// Whether some module imports the entry module.
    pub fn force_runtime(&self) -> (r: bool)
        ensures
            r == self.bview().force_runtime,
    {
        self.force_runtime
    }

    /// The modules of the graph, taken out of the state.
    pub fn into_modules(self) -> (r: ModuleMap)
        ensures
            mod_views(r.modules()) == self.bview().graph.mods,
    {
        self.modules
    }
}

/// The entry module stays in the graph, with the file it started with, and
/// is never a namespace package.
pub proof fn lemma_entry_held(st: BundleState)
    requires
        st.wf(),
    ensures
        crate::graph::holds_module(st.bview().graph, st.entry(), st.entry_file()),
{
}

/// The number of bundled modules never exceeds the limit on imported
/// modules by more than one: every module but the entry is counted, and a
/// step that would exceed the limit fails instead.
pub proof fn lemma_bundled_modules_bounded(st: BundleState)
    requires
        st.wf(),
    ensures
        st.bview().graph.mods.len() <= st.bview().graph.max + 1,
{
}


/// An import of a module whose top-level package is external stays a
/// runtime import: it changes nothing, unless it is marked `# bundle`.
pub proof fn lemma_external_import_kept(
    s: BundleView,
    cur: CurView,
    req: ReqView,
    entry: Seq<char>,
    external: Seq<Seq<char>>,
    roots: Seq<SearchRoot>,
    cache: Seq<DirProbe>,
    t: Seq<char>,
)
    requires
        target_spec(cur, req) == Ok::<Seq<char>, Seq<char>>(t),
        !req.6,
        is_external(t, external),
    ensures
        request_spec(s, cur, req, entry, external, roots, cache) == Ok::<BundleView, Seq<char>>(s),
{
}

/// A module found only through `sys.path` is not bundled from a module that
/// may not bundle such imports unless the import is marked `# bundle`.
pub proof fn lemma_sys_path_import_needs_directive(
    s: BundleView,
    cur: CurView,
    req: ReqView,
    entry: Seq<char>,
    external: Seq<Seq<char>>,
    roots: Seq<SearchRoot>,
    cache: Seq<DirProbe>,
    t: Seq<char>,
    r: ResolvedView,
)
    requires
        target_spec(cur, req) == Ok::<Seq<char>, Seq<char>>(t),
        resolution(roots, t, cache) == LookupSpec::<Option<ResolvedView>>::Found(Some(r)),
        r.4,
        !req.6,
        !cur.3,
    ensures
        request_spec(s, cur, req, entry, external, roots, cache) == Ok::<BundleView, Seq<char>>(s),
{
}

/// A module newly admitted from `sys.path`, or by a module that may bundle
/// such imports, may itself bundle imports found through `sys.path`, so
/// its own imports need no further directive.
pub proof fn lemma_admitted_module_bundles_transitively(g: GraphView, r: ResolvedView, allow: bool)
    requires
        find_mod(g.mods, r.0) is None,
        r.4 || allow,
        include_spec(g, r, allow) is Ok,
    ensures
        include_spec(g, r, allow)->Ok_0.1.mods[insert_pos(g.mods, r.0)] == fresh_module(r.0, r, allow),
        fresh_module(r.0, r, allow).4,
{
    crate::model::lemma_insert_pos_bounds(g.mods, r.0);
}

} // verus!
