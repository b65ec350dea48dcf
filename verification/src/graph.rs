//! The bundle graph: which modules are bundled, the queue of modules still
//! to analyze, and the budget that bounds how many imported modules may be
//! added. Modules are added one at a time; each addition is counted
//! against the budget, and a module already present may only gain the
//! right to bundle imports found through `sys.path`.
use vstd::prelude::*;
use crate::model::{
    ModuleData, ModuleMap, ModView, mod_view, mod_views, views_sorted, insert_pos, find_mod,
    lemma_find_mod, lemma_insert_pos_bounds, names_sorted, has_name,
};
use crate::names::{str_debug, debug_str};
use crate::resolver::{
    DirProbe, Lookup, LookupSpec, ModuleResolver, ResolvedModule, ResolvedView, SearchRoot,
    resolution, resolved_view,
};
use crate::text::{
    decimal, decimal_chars, from_chars, join_seq, push_str, split_chars, split_seq, sviews, to_chars,
    vviews,
};

verus! {

broadcast use vstd::string::group_string_axioms;

/// How many imported modules may still be added.
#[derive(Debug)]
pub struct ImportedModuleBudget {
    /// The most imported modules allowed.
    pub max_imported_modules: usize,
    /// How many have been added so far.
    pub imported_count: usize,
}

/// The graph as values: the modules (sorted by name), the queue of module
/// names still to analyze, the budget's limit and its count.
pub struct GraphView {
    /// The modules, sorted by name.
    pub mods: Seq<ModView>,
    /// The names still to analyze, first to be taken first.
    pub queue: Seq<Seq<char>>,
    /// The most imported modules allowed.
    pub max: int,
    /// How many imported modules have been added.
    pub count: int,
}

/// The view of a graph held in a map, a queue and a budget.
pub open spec fn gview(mods: Seq<ModuleData>, queue: Seq<String>, b: ImportedModuleBudget) -> GraphView {
    GraphView {
        mods: mod_views(mods),
        queue: sviews(queue),
        max: b.max_imported_modules as int,
        count: b.imported_count as int,
    }
}

/// The error when the budget is spent while adding `name`.
pub open spec fn limit_message(max: int, name: Seq<char>) -> Seq<char> {
    "imported module limit of "@ + decimal(max as nat) + " exceeded while resolving "@
        + str_debug(name)
}

/// Counts one more imported module, or fails when the budget is spent.
pub open spec fn track_spec(g: GraphView, name: Seq<char>) -> Result<GraphView, Seq<char>> {
    if g.count >= g.max {
        Err(limit_message(g.max, name))
    } else {
        Ok(GraphView { count: g.count + 1, ..g })
    }
}

/// Adds a module at its sorted place, queueing it unless it is synthetic.
pub open spec fn add_module(g: GraphView, m: ModView) -> GraphView {
    GraphView {
        mods: g.mods.insert(insert_pos(g.mods, m.0), m),
        queue: if m.3 {
            g.queue
        } else {
            g.queue.push(m.0)
        },
        ..g
    }
}

/// Lets the module at position `k` bundle imports found through
/// `sys.path`, queueing its name again when `requeue`.
pub open spec fn allow_at(g: GraphView, k: int, requeue: bool) -> GraphView {
    GraphView {
        mods: g.mods.update(k, (g.mods[k].0, g.mods[k].1, g.mods[k].2, g.mods[k].3, true, g.mods[k].5)),
        queue: if requeue {
            g.queue.push(g.mods[k].0)
        } else {
            g.queue
        },
        ..g
    }
}

/// A new module, not analyzed yet.
pub open spec fn fresh_module(name: Seq<char>, r: ResolvedView, allow: bool) -> ModView {
    (name, r.1, r.2, r.3, allow || r.4, Seq::<char>::empty())
}

/// Includes a resolved module: a new one is counted and added (and queued
/// unless synthetic); one already present that may not yet bundle imports
/// through `sys.path` gains that right when `allow`, and is queued again.
/// The flag tells whether the graph changed.
pub open spec fn include_spec(g: GraphView, r: ResolvedView, allow: bool) -> Result<
    (bool, GraphView),
    Seq<char>,
> {
    match find_mod(g.mods, r.0) {
        None => match track_spec(g, r.0) {
            Err(e) => Err(e),
            Ok(g1) => Ok((true, add_module(g1, fresh_module(r.0, r, allow)))),
        },
        Some(k) => if allow && !g.mods[k].4 {
            Ok((true, allow_at(g, k, true)))
        } else {
            Ok((false, g))
        },
    }
}

/// Leaves the module at position `k` out of the graph, and out of the
/// count of imported modules.
pub open spec fn drop_module(g: GraphView, k: int) -> GraphView {
    GraphView { mods: g.mods.remove(k), count: g.count - 1, ..g }
}

/// A graph is well formed when every module but the entry was counted
/// against a budget that was never exceeded.
pub open spec fn graph_wf(g: GraphView) -> bool {
    &&& g.mods.len() == g.count + 1
    &&& 0 <= g.count <= g.max
}

/// Including a module keeps the graph well formed.
pub proof fn lemma_include_wf(g: GraphView, r: ResolvedView, allow: bool)
    requires
        graph_wf(g),
    ensures
        include_spec(g, r, allow) matches Ok((_, g2)) ==> graph_wf(g2),
{
    lemma_insert_pos_bounds(g.mods, r.0);
}

/// Whether the graph holds a module with this name and file, one that is
/// not synthetic.
pub open spec fn holds_module(g: GraphView, name: Seq<char>, file: Seq<char>) -> bool {
    exists|k: int|
        0 <= k < g.mods.len() && (#[trigger] g.mods[k]).0 == name && g.mods[k].1 == file && !g.mods[k].3
}

/// Inserting a module of another name keeps the others.
proof fn lemma_holds_insert(g: GraphView, g2: GraphView, p: int, m: ModView, n: Seq<char>, f: Seq<char>)
    requires
        holds_module(g, n, f),
        0 <= p <= g.mods.len(),
        g2.mods == g.mods.insert(p, m),
        m.0 != n,
    ensures
        holds_module(g2, n, f),
{
    let k = choose|k: int|
        0 <= k < g.mods.len() && (#[trigger] g.mods[k]).0 == n && g.mods[k].1 == f && !g.mods[k].3;
    if k < p {
        assert(g2.mods[k] == g.mods[k]);
    } else {
        assert(g2.mods[k + 1] == g.mods[k]);
    }
}

/// Changing a module's other fields keeps its name, file and kind.
pub proof fn lemma_holds_update(g: GraphView, g2: GraphView, j: int, m: ModView, n: Seq<char>, f: Seq<char>)
    requires
        holds_module(g, n, f),
        0 <= j < g.mods.len(),
        g2.mods == g.mods.update(j, m),
        m.0 == g.mods[j].0 && m.1 == g.mods[j].1 && m.3 == g.mods[j].3,
    ensures
        holds_module(g2, n, f),
{
    let k = choose|k: int|
        0 <= k < g.mods.len() && (#[trigger] g.mods[k]).0 == n && g.mods[k].1 == f && !g.mods[k].3;
    assert(g2.mods[k].0 == n && g2.mods[k].1 == f && !g2.mods[k].3);
}

/// Leaving out a module of another name keeps the others.
pub proof fn lemma_holds_drop(g: GraphView, j: int, n: Seq<char>, f: Seq<char>)
    requires
        holds_module(g, n, f),
        0 <= j < g.mods.len(),
        g.mods[j].0 != n,
    ensures
        holds_module(drop_module(g, j), n, f),
{
    let g2 = drop_module(g, j);
    let k = choose|k: int|
        0 <= k < g.mods.len() && (#[trigger] g.mods[k]).0 == n && g.mods[k].1 == f && !g.mods[k].3;
    if k < j {
        assert(g2.mods[k] == g.mods[k]);
    } else {
        assert(g2.mods[k - 1] == g.mods[k]);
    }
}

/// Including a module keeps every module the graph held.
pub proof fn lemma_include_holds(g: GraphView, r: ResolvedView, allow: bool, n: Seq<char>, f: Seq<char>)
    requires
        holds_module(g, n, f),
    ensures
        include_spec(g, r, allow) matches Ok((_, g2)) ==> holds_module(g2, n, f),
{
    lemma_insert_pos_bounds(g.mods, r.0);
    match find_mod(g.mods, r.0) {
        None => {
            if r.0 == n {
                let k = choose|k: int|
                    0 <= k < g.mods.len() && (#[trigger] g.mods[k]).0 == n && g.mods[k].1 == f
                        && !g.mods[k].3;
                assert(g.mods[k].0 == r.0);
            }
            match track_spec(g, r.0) {
                Ok(g1) => {
                    let m = fresh_module(r.0, r, allow);
                    lemma_holds_insert(g1, add_module(g1, m), insert_pos(g1.mods, m.0), m, n, f);
                },
                Err(_) => {},
            }
        },
        Some(k) => {
            if allow && !g.mods[k].4 {
                let g2 = allow_at(g, k, true);
                lemma_holds_update(g, g2, k, g2.mods[k], n, f);
            }
        },
    }
}

/// Making sure of parent packages keeps every module the graph held.
pub proof fn lemma_parents_from_holds(
    g: GraphView,
    parts: Seq<Seq<char>>,
    i: int,
    roots: Seq<SearchRoot>,
    cache: Seq<DirProbe>,
    allow: bool,
    changed: bool,
    n: Seq<char>,
    f: Seq<char>,
)
    requires
        holds_module(g, n, f),
    ensures
        parents_from(g, parts, i, roots, cache, allow, changed) matches Ok((_, g2)) ==> holds_module(g2, n, f),
    decreases parts.len() - i,
{
    if i < parts.len() && i >= 1 {
        let parent = parent_name(parts, i);
        lemma_insert_pos_bounds(g.mods, parent);
        match find_mod(g.mods, parent) {
            Some(k) => {
                let e = g.mods[k];
                let up = allow && !e.4;
                let g2 = if up {
                    allow_at(g, k, !e.3)
                } else {
                    g
                };
                if up {
                    lemma_holds_update(g, g2, k, g2.mods[k], n, f);
                }
                lemma_parents_from_holds(g2, parts, i + 1, roots, cache, allow, changed || up, n, f);
            },
            None => match resolution(roots, parent, cache) {
                LookupSpec::Found(Some(r)) => {
                    match track_spec(g, parent) {
                        Ok(g1) => {
                            if parent == n {
                                let k = choose|k: int|
                                    0 <= k < g.mods.len() && (#[trigger] g.mods[k]).0 == n
                                        && g.mods[k].1 == f && !g.mods[k].3;
                                assert(g.mods[k].0 == parent);
                            }
                            let m = fresh_module(parent, r, allow);
                            let g2 = add_module(g1, m);
                            lemma_holds_insert(g1, g2, insert_pos(g1.mods, m.0), m, n, f);
                            lemma_parents_from_holds(g2, parts, i + 1, roots, cache, allow, true, n, f);
                        },
                        Err(_) => {},
                    }
                },
                _ => {},
            },
        }
    }
}

/// Making sure of parent packages keeps every module the graph held.
pub proof fn lemma_parents_holds(
    g: GraphView,
    name: Seq<char>,
    roots: Seq<SearchRoot>,
    cache: Seq<DirProbe>,
    allow: bool,
    n: Seq<char>,
    f: Seq<char>,
)
    requires
        holds_module(g, n, f),
    ensures
        parents_spec(g, name, roots, cache, allow) matches Ok((_, g2)) ==> holds_module(g2, n, f),
{
    lemma_parents_from_holds(g, split_seq(name, '.'), 1, roots, cache, allow, false, n, f);
}

/// Making sure of parent packages keeps the graph well formed.
pub proof fn lemma_parents_from_wf(
    g: GraphView,
    parts: Seq<Seq<char>>,
    i: int,
    roots: Seq<SearchRoot>,
    cache: Seq<DirProbe>,
    allow: bool,
    changed: bool,
)
    requires
        graph_wf(g),
    ensures
        parents_from(g, parts, i, roots, cache, allow, changed) matches Ok((_, g2)) ==> graph_wf(g2),
    decreases parts.len() - i,
{
    if i < parts.len() && i >= 1 {
        let parent = parent_name(parts, i);
        lemma_insert_pos_bounds(g.mods, parent);
        match find_mod(g.mods, parent) {
            Some(k) => {
                let e = g.mods[k];
                let up = allow && !e.4;
                let g2 = if up {
                    allow_at(g, k, !e.3)
                } else {
                    g
                };
                lemma_parents_from_wf(g2, parts, i + 1, roots, cache, allow, changed || up);
            },
            None => match resolution(roots, parent, cache) {
                LookupSpec::Found(Some(r)) => {
                    match track_spec(g, parent) {
                        Ok(g1) => {
                            let g2 = add_module(g1, fresh_module(parent, r, allow));
                            lemma_parents_from_wf(g2, parts, i + 1, roots, cache, allow, true);
                        },
                        Err(_) => {},
                    }
                },
                _ => {},
            },
        }
    }
}

/// Making sure of parent packages keeps the graph well formed.
pub proof fn lemma_parents_wf(
    g: GraphView,
    name: Seq<char>,
    roots: Seq<SearchRoot>,
    cache: Seq<DirProbe>,
    allow: bool,
)
    requires
        graph_wf(g),
    ensures
        parents_spec(g, name, roots, cache, allow) matches Ok((_, g2)) ==> graph_wf(g2),
{
    lemma_parents_from_wf(g, split_seq(name, '.'), 1, roots, cache, allow, false);
}

/// The views of sorted modules are sorted, and a name is found in the
/// views exactly where it is in the modules.
pub proof fn lemma_views_find(s: Seq<ModuleData>, n: Seq<char>)
    requires
        names_sorted(s),
    ensures
        views_sorted(mod_views(s)),
        !has_name(s, n) ==> find_mod(mod_views(s), n) is None,
        forall|i: int|
            0 <= i < s.len() && (#[trigger] s[i]).name@ == n ==> find_mod(mod_views(s), n) == Some(i),
{
    let v = mod_views(s);
    assert(views_sorted(v));
    if !has_name(s, n) {
        if exists|i: int| 0 <= i < v.len() && (#[trigger] v[i]).0 == n {
            let i = choose|i: int| 0 <= i < v.len() && (#[trigger] v[i]).0 == n;
            assert(s[i].name@ == n);
        }
    }
    assert forall|i: int| 0 <= i < s.len() && (#[trigger] s[i]).name@ == n implies find_mod(v, n)
        == Some(i) by {
        assert(v[i].0 == n);
        lemma_find_mod(v, n, i);
    }
}

impl ImportedModuleBudget {
    /// Counts one more imported module, or fails when the limit is reached.
    pub fn track(&mut self, module_name: &str) -> (r: Result<(), String>)
        ensures
            match r {
                Ok(_) => old(self).imported_count < old(self).max_imported_modules
                    && final(self).imported_count == old(self).imported_count + 1
                    && final(self).max_imported_modules == old(self).max_imported_modules,
                Err(e) => old(self).imported_count >= old(self).max_imported_modules && *final(self)
                    == *old(self) && e@ == limit_message(
                    old(self).max_imported_modules as int,
                    module_name@,
                ),
            },
    {
        if self.imported_count >= self.max_imported_modules {
            let mut msg = to_chars("imported module limit of ");
            let digits = decimal_chars(self.max_imported_modules as u128);
            crate::text::push_all(&mut msg, digits.as_slice());
            push_str(&mut msg, " exceeded while resolving ");
            let d = debug_str(module_name);
            push_str(&mut msg, d.as_str());
            return Err(from_chars(msg.as_slice()));
        }
        self.imported_count += 1;
        Ok(())
    }
}

/// Leaves the module at position `k` out of the map and gives its place in
/// the budget back (see `drop_module`).
pub fn drop_module_at(modules: &mut ModuleMap, queue: &Vec<String>, import_budget: &mut ImportedModuleBudget, k: usize)
    requires
        k < old(modules).modules().len(),
        old(import_budget).imported_count > 0,
    ensures
        gview(final(modules).modules(), queue@, *final(import_budget)) == drop_module(
            gview(old(modules).modules(), queue@, *old(import_budget)),
            k as int,
        ),
{
    let ghost before = modules.modules();
    modules.remove(k);
    import_budget.imported_count = import_budget.imported_count - 1;
    assert(mod_views(modules.modules()) =~= mod_views(before).remove(k as int));
}

/// Adds a module that is not in the map yet, queueing it unless it is
/// synthetic.
fn add_new_module(modules: &mut ModuleMap, queue: &mut Vec<String>, m: ModuleData)
    requires
        !has_name(old(modules).modules(), m.name@),
    ensures
        names_sorted(final(modules).modules()),
        mod_views(final(modules).modules()) == mod_views(old(modules).modules()).insert(
            insert_pos(mod_views(old(modules).modules()), m.name@),
            mod_view(m),
        ),
        sviews(final(queue)@) == if m.synthetic {
            sviews(old(queue)@)
        } else {
            sviews(old(queue)@).push(m.name@)
        },
{
    let ghost before = modules.modules();
    let synthetic = m.synthetic;
    let name = m.name.clone();
    modules.insert(m);
    let ghost p = insert_pos(mod_views(before), name@);
    proof {
        lemma_insert_pos_bounds(mod_views(before), name@);
    }
    assert(mod_views(modules.modules()) =~= mod_views(before).insert(p, mod_view(m)));
    if !synthetic {
        let ghost q = queue@;
        queue.push(name);
        assert(sviews(queue@) =~= sviews(q).push(m.name@));
    }
}

/// Includes a resolved module in the graph (see `include_spec`).
pub fn include_resolved_module(
    modules: &mut ModuleMap,
    queue: &mut Vec<String>,
    import_budget: &mut ImportedModuleBudget,
    resolved: &ResolvedModule,
    allow_sys_path_imports: bool,
) -> (r: Result<bool, String>)
    ensures
        match include_spec(
            gview(old(modules).modules(), old(queue)@, *old(import_budget)),
            resolved_view(*resolved),
            allow_sys_path_imports,
        ) {
            Ok((changed, g)) => r == Ok::<bool, String>(changed) && gview(
                final(modules).modules(),
                final(queue)@,
                *final(import_budget),
            ) == g,
            Err(e) => r is Err && r->Err_0@ == e && gview(
                final(modules).modules(),
                final(queue)@,
                *final(import_budget),
            ) == gview(old(modules).modules(), old(queue)@, *old(import_budget)),
        },
{
    let ghost g0 = gview(modules.modules(), queue@, *import_budget);
    let name = to_chars(resolved.name.as_str());
    let found = modules.find(name.as_slice());
    proof {
        lemma_views_find(modules.modules(), name@);
    }
    match found {
        None => {
            match import_budget.track(resolved.name.as_str()) {
                Err(e) => {
                    return Err(e);
                },
                Ok(_) => {},
            }
            let m = ModuleData {
                name: resolved.name.clone(),
                file_path: resolved.file_path.clone(),
                is_package: resolved.is_package,
                synthetic: resolved.synthetic,
                allow_sys_path_imports: allow_sys_path_imports || resolved.from_sys_path,
                source: String::new(),
            };
            assert(mod_view(m) == fresh_module(resolved.name@, resolved_view(*resolved), allow_sys_path_imports));
            add_new_module(modules, queue, m);
            Ok(true)
        },
        Some(i) => {
            let entries = modules.entries();
            if allow_sys_path_imports && !entries[i].allow_sys_path_imports {
                let ghost q = queue@;
                let ghost before = modules.modules();
                modules.allow_sys_path(i);
                queue.push(resolved.name.clone());
                assert(sviews(queue@) =~= sviews(q).push(resolved.name@));
                assert(mod_views(modules.modules()) =~= allow_at(g0, i as int, true).mods);
                Ok(true)
            } else {
                Ok(false)
            }
        },
    }
}


/// The name made of the first `i` components.
pub open spec fn parent_name(parts: Seq<Seq<char>>, i: int) -> Seq<char> {
    join_seq(parts.take(i), '.')
}

/// Whether every proper parent of `name` resolves without a further probe.
pub open spec fn parents_known(roots: Seq<SearchRoot>, name: Seq<char>, cache: Seq<DirProbe>) -> bool {
    let parts = split_seq(name, '.');
    forall|i: int|
        1 <= i < parts.len() ==> !(#[trigger] resolution(roots, parent_name(parts, i), cache) is NeedProbe)
}

/// Makes sure the parents of a name from the `i`-th on are in the graph:
/// a parent already present may gain the right to bundle imports found
/// through `sys.path`, and stops the walk unless it is a package; a parent
/// not present is resolved and added, and the walk stops when it does not
/// resolve, when it was found through `sys.path` without `allow`, or when
/// it is not a package. `changed` tells whether the graph changed so far.
pub open spec fn parents_from(
    g: GraphView,
    parts: Seq<Seq<char>>,
    i: int,
    roots: Seq<SearchRoot>,
    cache: Seq<DirProbe>,
    allow: bool,
    changed: bool,
) -> Result<(bool, GraphView), Seq<char>>
    decreases parts.len() - i,
{
    if i >= parts.len() || i < 1 {
        Ok((changed, g))
    } else {
        let parent = parent_name(parts, i);
        match find_mod(g.mods, parent) {
            Some(k) => {
                let e = g.mods[k];
                let up = allow && !e.4;
                let g2 = if up {
                    allow_at(g, k, !e.3)
                } else {
                    g
                };
                if !e.2 {
                    Ok((changed || up, g2))
                } else {
                    parents_from(g2, parts, i + 1, roots, cache, allow, changed || up)
                }
            },
            None => match resolution(roots, parent, cache) {
                LookupSpec::NeedProbe(_, _) => Ok((changed, g)),
                LookupSpec::Failed(e) => Err("resolve parent package "@ + str_debug(parent) + ": "@ + e),
                LookupSpec::Found(None) => Ok((changed, g)),
                LookupSpec::Found(Some(r)) => if r.4 && !allow {
                    Ok((changed, g))
                } else {
                    match track_spec(g, parent) {
                        Err(e) => Err(e),
                        Ok(g1) => {
                            let g2 = add_module(g1, fresh_module(parent, r, allow));
                            if !r.2 {
                                Ok((true, g2))
                            } else {
                                parents_from(g2, parts, i + 1, roots, cache, allow, true)
                            }
                        },
                    }
                },
            },
        }
    }
}

/// Makes sure the parent packages of `name` are in the graph (see
/// `parents_from`); a name without a parent changes nothing.
pub open spec fn parents_spec(
    g: GraphView,
    name: Seq<char>,
    roots: Seq<SearchRoot>,
    cache: Seq<DirProbe>,
    allow: bool,
) -> Result<(bool, GraphView), Seq<char>> {
    let parts = split_seq(name, '.');
    if parts.len() < 2 {
        Ok((false, g))
    } else {
        parents_from(g, parts, 1, roots, cache, allow, false)
    }
}

/// Makes sure the parent packages of `module_name` are in the graph (see
/// `parents_spec`), given that each parent resolves without a further probe.
pub fn ensure_parent_packages(
    module_name: &str,
    resolver: &ModuleResolver,
    cache: &[DirProbe],
    modules: &mut ModuleMap,
    queue: &mut Vec<String>,
    import_budget: &mut ImportedModuleBudget,
    allow_sys_path_imports: bool,
) -> (r: Result<bool, String>)
    requires
        parents_known(resolver.roots@, module_name@, cache@),
    ensures
        match parents_spec(
            gview(old(modules).modules(), old(queue)@, *old(import_budget)),
            module_name@,
            resolver.roots@,
            cache@,
            allow_sys_path_imports,
        ) {
            Ok((changed, g)) => r == Ok::<bool, String>(changed) && gview(
                final(modules).modules(),
                final(queue)@,
                *final(import_budget),
            ) == g,
            Err(e) => r is Err && r->Err_0@ == e,
        },
{
    let ghost roots = resolver.roots@;
    let ghost allow = allow_sys_path_imports;
    let ghost g0 = gview(modules.modules(), queue@, *import_budget);
    let pc = to_chars(module_name);
    let parts = split_chars(pc.as_slice(), '.');
    let ghost pv = vviews(parts@);
    if parts.len() < 2 {
        return Ok(false);
    }
    let mut changed = false;
    let mut prefix: Vec<char> = Vec::new();
    crate::text::push_all(&mut prefix, parts[0].as_slice());
    assert(pv.take(1) =~= seq![pv[0]]);
    let mut i: usize = 1;
    while i < parts.len()
        invariant
            1 <= i <= parts@.len(),
            pv == vviews(parts@),
            pv == split_seq(module_name@, '.'),
            roots == resolver.roots@,
            allow == allow_sys_path_imports,
            g0 == gview(old(modules).modules(), old(queue)@, *old(import_budget)),
            prefix@ == parent_name(pv, i as int),
            parents_known(roots, module_name@, cache@),
            parents_spec(g0, module_name@, roots, cache@, allow) == parents_from(
                gview(modules.modules(), queue@, *import_budget),
                pv,
                i as int,
                roots,
                cache@,
                allow,
                changed,
            ),
        decreases parts@.len() - i,
    {
        let ghost g = gview(modules.modules(), queue@, *import_budget);
        let parent = from_chars(prefix.as_slice());
        let found = modules.find(prefix.as_slice());
        proof {
            lemma_views_find(modules.modules(), prefix@);
        }
        match found {
            Some(k) => {
                let entries = modules.entries();
                let is_package = entries[k].is_package;
                let synthetic = entries[k].synthetic;
                if allow_sys_path_imports && !entries[k].allow_sys_path_imports {
                    let ghost q = queue@;
                    modules.allow_sys_path(k);
                    if !synthetic {
                        queue.push(parent);
                        assert(sviews(queue@) =~= sviews(q).push(prefix@));
                    }
                    changed = true;
                    assert(gview(modules.modules(), queue@, *import_budget) == allow_at(
                        g,
                        k as int,
                        !synthetic,
                    )) by {
                        assert(mod_views(modules.modules()) =~= allow_at(g, k as int, !synthetic).mods);
                    }
                }
                if !is_package {
                    return Ok(changed);
                }
            },
            None => {
                match resolver.resolve_module(parent.as_str(), cache) {
                    Lookup::NeedProbe(_, _) => {
                        assert(resolution(roots, parent_name(pv, i as int), cache@) is NeedProbe);
                        assert(false);
                        return Ok(changed);
                    },
                    Lookup::Failed(e) => {
                        let mut msg = to_chars("resolve parent package ");
                        let d = debug_str(parent.as_str());
                        push_str(&mut msg, d.as_str());
                        push_str(&mut msg, ": ");
                        push_str(&mut msg, e.as_str());
                        return Err(from_chars(msg.as_slice()));
                    },
                    Lookup::Found(None) => {
                        return Ok(changed);
                    },
                    Lookup::Found(Some(res)) => {
                        if res.from_sys_path && !allow_sys_path_imports {
                            return Ok(changed);
                        }
                        match import_budget.track(parent.as_str()) {
                            Err(e) => {
                                return Err(e);
                            },
                            Ok(_) => {},
                        }
                        let is_package = res.is_package;
                        let m = ModuleData {
                            name: parent,
                            file_path: res.file_path,
                            is_package: res.is_package,
                            synthetic: res.synthetic,
                            allow_sys_path_imports: allow_sys_path_imports || res.from_sys_path,
                            source: String::new(),
                        };
                        assert(mod_view(m) == fresh_module(prefix@, resolved_view(res), allow));
                        add_new_module(modules, queue, m);
                        changed = true;
                        if !is_package {
                            return Ok(changed);
                        }
                    },
                }
            },
        }
        proof {
            assert(pv.take(i + 1) =~= pv.take(i as int).push(pv[i as int]));
            crate::text::lemma_join_push(pv.take(i as int), pv[i as int], '.');
        }
        prefix.push('.');
        crate::text::push_all(&mut prefix, parts[i].as_slice());
        i += 1;
    }
    Ok(changed)
}

} // verus!
