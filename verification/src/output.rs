//! The end of a run: formatting with Ruff when asked, license headers,
//! the bundled code, and the list of bundled modules.
use vstd::prelude::*;
use crate::bundle::BundleState;
use crate::codegen::{HeaderGroup, bundle_code, generate_bundle_code, headers_for};
use crate::licenses::{
    LicenseComment, SitePackages, collect_license_comments, comment_views, format_license_headers,
    headers_of, module_names, ordered_by_module, scan_dists, CommentView,
};
use crate::model::{BundleResult, BundledModule, ModuleData, ModuleMap, ModView, mod_view, mod_views};
use crate::names::{str_debug, debug_str};
use crate::text::{from_chars, push_str, string_of, to_chars};

verus! {

broadcast use vstd::string::group_string_axioms;

/// What Ruff's formatter makes of a Python source with its default
/// options; `None` when it cannot format it.
pub uninterp spec fn python_formatted(source: Seq<char>) -> Option<Seq<char>>;

/// The view of an optional string.
pub open spec fn opt_view(r: Option<String>) -> Option<Seq<char>> {
    match r {
        Some(s) => Some(s@),
        None => None,
    }
}

/// Formats Python source with Ruff (`ruff_python_formatter::format_module_source`
/// with default options, then the printed code).
/// Claimed: the result is `python_formatted` of the source, a function of
/// it alone; `None` when the formatter reports an error.
#[verifier::external_body]
fn format_python(source: &str) -> (r: Option<String>)
    ensures
        opt_view(r) == python_formatted(source@),
{
    ruff_python_formatter::format_module_source(
        source,
        ruff_python_formatter::PyFormatOptions::default(),
    ).ok().map(|printed| printed.into_code())
}

/// A source formatted when the formatter can, unchanged otherwise.
pub open spec fn formatted_or_same(source: Seq<char>) -> Seq<char> {
    match python_formatted(source) {
        Some(f) => f,
        None => source,
    }
}

/// A module with its source formatted, unless it is synthetic.
pub open spec fn formatted_module(m: ModView) -> ModView {
    if m.3 {
        m
    } else {
        (m.0, m.1, m.2, m.3, m.4, formatted_or_same(m.5))
    }
}

/// Modules with their sources formatted.
pub open spec fn formatted_modules(ms: Seq<ModView>) -> Seq<ModView> {
    ms.map_values(|m: ModView| formatted_module(m))
}

/// Code formatted with Ruff, or unchanged when the formatter fails.
pub fn format_code(code: &str) -> (r: String)
    ensures
        r@ == formatted_or_same(code@),
{
    match format_python(code) {
        Some(f) => f,
        None => string_of(code),
    }
}

/// Formats the source of every module that is not synthetic, keeping a
/// source the formatter cannot format.
pub fn format_module_sources(modules: &mut ModuleMap)
    ensures
        mod_views(final(modules).modules()) == formatted_modules(mod_views(old(modules).modules())),
{
    let ghost before = mod_views(modules.modules());
    let mut i: usize = 0;
    while i < modules.len()
        invariant
            i <= modules.modules().len(),
            modules.modules().len() == before.len(),
            forall|k: int|
                0 <= k < i ==> #[trigger] mod_views(modules.modules())[k] == formatted_module(before[k]),
            forall|k: int| i <= k < before.len() ==> #[trigger] mod_views(modules.modules())[k] == before[k],
        decreases before.len() - i,
    {
        let entries = modules.entries();
        if !entries[i].synthetic {
            let ghost m = mod_views(modules.modules())[i as int];
            match format_python(entries[i].source.as_str()) {
                Some(f) => {
                    let ghost old_mods = modules.modules();
                    modules.set_source(i, f);
                    assert forall|k: int| 0 <= k < before.len() && k != i implies #[trigger] mod_views(
                        modules.modules(),
                    )[k] == mod_views(old_mods)[k] by {}
                },
                None => {},
            }
        }
        i += 1;
    }
    assert(mod_views(modules.modules()) =~= formatted_modules(before));
}

/// A bundled module as values: name, file, package, synthetic.
pub type ListedView = (Seq<char>, Seq<char>, bool, bool);

/// The view of the module list.
pub open spec fn list_view(v: Seq<BundledModule>) -> Seq<ListedView> {
    v.map_values(|b: BundledModule| (b.name@, b.file_path@, b.is_package, b.synthetic))
}

/// The listed view of modules.
pub open spec fn listed(ms: Seq<ModView>) -> Seq<ListedView> {
    ms.map_values(|m: ModView| (m.0, m.1, m.2, m.3))
}

/// The bundled modules, sorted by name.
pub fn bundled_module_list(modules: &ModuleMap) -> (r: Vec<BundledModule>)
    ensures
        list_view(r@) == listed(mod_views(modules.modules())),
        forall|i: int, j: int|
            0 <= i < j < r@.len() ==> crate::order::seq_lt(r@[i].name@, r@[j].name@),
{
    let entries = modules.entries();
    let mut out: Vec<BundledModule> = Vec::new();
    let mut i: usize = 0;
    while i < entries.len()
        invariant
            i <= entries@.len(),
            entries@ == modules.modules(),
            list_view(out@) == listed(mod_views(entries@)).take(i as int),
        decreases entries@.len() - i,
    {
        let ghost before = out@;
        out.push(
            BundledModule {
                name: entries[i].name.clone(),
                file_path: entries[i].file_path.clone(),
                is_package: entries[i].is_package,
                synthetic: entries[i].synthetic,
            },
        );
        assert(list_view(out@) =~= list_view(before).push(listed(mod_views(entries@))[i as int]));
        assert(listed(mod_views(entries@)).take(i + 1) =~= listed(mod_views(entries@)).take(i as int).push(listed(mod_views(entries@))[i as int]));
        i += 1;
    }
    assert(listed(mod_views(entries@)).take(entries@.len() as int) =~= listed(mod_views(entries@)));
    assert forall|i: int, j: int| 0 <= i < j < out@.len() implies crate::order::seq_lt(
        out@[i].name@,
        out@[j].name@,
    ) by {
        assert(list_view(out@)[i].0 == entries@[i].name@);
        assert(list_view(out@)[j].0 == entries@[j].name@);
    }
    out
}

/// The position of the module named `name`.
fn position_of(modules: &ModuleMap, name: &str) -> (r: Result<usize, String>)
    ensures
        match r {
            Ok(k) => k < modules.modules().len() && modules.modules()[k as int].name@ == name@,
            Err(e) => !crate::model::has_name(modules.modules(), name@) && e@
                == "internal error: entry module "@ + str_debug(name@) + " missing"@,
        },
{
    let nc = to_chars(name);
    match modules.find(nc.as_slice()) {
        Some(k) => Ok(k),
        None => {
            let mut msg = to_chars("internal error: entry module ");
            let d = debug_str(name);
            push_str(&mut msg, d.as_str());
            push_str(&mut msg, " missing");
            Err(from_chars(msg.as_slice()))
        },
    }
}

/// Whether the list holds a module of this name with this file, one that
/// is not a namespace package.
pub open spec fn lists_module(list: Seq<BundledModule>, name: Seq<char>, file: Seq<char>) -> bool {
    exists|e: int|
        0 <= e < list.len() && #[trigger] list[e].name@ == name && list[e].file_path@ == file
            && !list[e].synthetic
}

/// Finishes a run: the sources are formatted when asked, the license
/// headers of the packages that installed bundled modules are collected
/// from the search roots' `*.dist-info` directories, and the bundle is
/// generated (and formatted when asked) from the entry module. The result
/// lists the bundled modules by name and gives the entry module's file.
#[verifier::spinoff_prover]
#[verifier::rlimit(40)]
pub fn finish_bundle(
    state: BundleState,
    site_packages: &[SitePackages],
    format: bool,
) -> (r: Result<BundleResult, String>)
    requires
        state.wf(),
    ensures
        r matches Ok(res) ==> forall|i: int, j: int|
            0 <= i < j < res.bundled_module_list@.len() ==> crate::order::seq_lt(
                res.bundled_module_list@[i].name@,
                res.bundled_module_list@[j].name@,
            ),
        r matches Ok(res) ==> res.bundled_module_list@.len() <= state.bview().graph.max + 1,
        r matches Ok(res) ==> res.entry_file@ == state.entry_file() && lists_module(
            res.bundled_module_list@,
            res.entry_module@,
            res.entry_file@,
        ),
        match r {
            Ok(res) => res.entry_module@ == state.entry()
                && exists|fm: Seq<ModuleData>, cs: Seq<LicenseComment>, h: Seq<HeaderGroup>, k: int|
                {
                    &&& mod_views(fm) == if format {
                        formatted_modules(state.bview().graph.mods)
                    } else {
                        state.bview().graph.mods
                    }
                    &&& comment_views(cs) == ordered_by_module(
                        scan_dists(
                            site_packages@,
                            0,
                            0,
                            fm,
                            Seq::<Seq<char>>::empty(),
                            Seq::<CommentView>::empty(),
                        ),
                        module_names(fm),
                    )
                    &&& forall|n: Seq<char>| headers_for(h, n) == headers_of(cs, n)
                    &&& 0 <= k < fm.len() && fm[k].name@ == state.entry()
                    &&& res.code@ == if format {
                        formatted_or_same(bundle_code(fm[k], fm, h, state.bview().force_runtime))
                    } else {
                        bundle_code(fm[k], fm, h, state.bview().force_runtime)
                    }
                    &&& list_view(res.bundled_module_list@) == listed(mod_views(fm))
                },
            Err(e) => crate::model::find_mod(state.bview().graph.mods, state.entry()) is None
                && e@ == "internal error: entry module "@ + str_debug(state.entry()) + " missing"@,
        },
{
    let entry_module = state.entry_name();
    let force_runtime = state.force_runtime();
    let ghost st = state;
    let mut modules = state.into_modules();
    if format {
        format_module_sources(&mut modules);
    }
    let comments = collect_license_comments(site_packages, &modules);
    let headers = format_license_headers(comments.as_slice());
    let k = match position_of(&modules, entry_module.as_str()) {
        Ok(k) => k,
        Err(e) => {
            proof {
                let sm = st.bview().graph.mods;
                if exists|i: int| 0 <= i < sm.len() && (#[trigger] sm[i]).0 == st.entry() {
                    let i = choose|i: int| 0 <= i < sm.len() && (#[trigger] sm[i]).0 == st.entry();
                    let mm = modules.modules();
                    assert(mod_views(mm).len() == mm.len());
                    assert(0 <= i < mm.len());
                    assert(mod_views(mm)[i].0 == st.entry());
                    assert(mod_views(mm)[i] == mod_view(mm[i]));
                    assert(mm[i].name@ == st.entry());
                    assert(crate::model::has_name(mm, st.entry()));
                }
            }
            return Err(e);
        },
    };
    let entries = modules.entries();
    let mut code = generate_bundle_code(&entries[k], &modules, headers.as_slice(), force_runtime);
    if format {
        code = format_code(code.as_str());
    }
    let list = bundled_module_list(&modules);
    let entry_file = entries[k].file_path.clone();
    proof {
        crate::bundle::lemma_bundled_modules_bounded(st);
        crate::bundle::lemma_entry_held(st);
        let sm = st.bview().graph.mods;
        let j = choose|j: int|
            0 <= j < sm.len() && (#[trigger] sm[j]).0 == st.entry() && sm[j].1 == st.entry_file() && !sm[j].3;
        let mm = modules.modules();
        assert(mod_views(mm)[j] == formatted_module(sm[j]) || mod_views(mm)[j] == sm[j]);
        assert(mm[j].name@ == st.entry());
        crate::graph::lemma_views_find(mm, st.entry());
        assert(mm[k as int].name@ == st.entry());
        assert(j == k as int);
        assert(mm[k as int].file_path@ == st.entry_file());
        assert(!mm[k as int].synthetic);
        assert(list_view(list@).len() == list@.len());
        assert(mod_views(modules.modules()).len() == modules.modules().len());
        assert(list@.len() == st.bview().graph.mods.len());
        assert(list_view(list@)[k as int].1 == entry_file@);
        assert(list_view(list@)[k as int].0 == entry_module@);
        assert(list@[k as int].name@ == st.entry());
        assert(list@[k as int].file_path@ == entry_file@);
    }
    let res = BundleResult { code, entry_file, entry_module, bundled_module_list: list };
    assert(res.bundled_module_list@[k as int].name@ == res.entry_module@);
    assert(res.bundled_module_list@[k as int].file_path@ == res.entry_file@);
    assert((k as int) < res.bundled_module_list@.len());
    assert(!res.bundled_module_list@[k as int].synthetic);
    assert(lists_module(res.bundled_module_list@, res.entry_module@, res.entry_file@));
    Ok(res)
}

} // verus!
