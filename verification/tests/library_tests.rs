use std::collections::HashMap;
use std::io::Write;

use pybundler::analyzer::{
    CallInfo, CommentInfo, KeywordInfo, ModuleSyntax, PyExpr, SyntaxEvent, analyze_module,
};
use pybundler::declaration::normalize_encoding_declaration;
use pybundler::encoding::{declares_unsupported_codec, find_encoding_in_line};
use pybundler::names::resolve_relative_name_with_package_arg;
use pybundler::bundle::{BundleState, BundleStep};
use pybundler::codegen::normalize_python_newlines;
use pybundler::layout::lay_out;
use pybundler::tokens::{TokenClass, tokens};
use pybundler::unused_imports::{lint_outcome, remove_unused_imports};
use pybundler::graph::ImportedModuleBudget;
use pybundler::licenses::{RecordFile, find_license_text};
use pybundler::model::{ImportRequest, ModuleAnalysis};
use pybundler::module_graph::{
    check_entry_argument, entry_project_root, module_name_from_path, parent_of,
    rel_components_to_module_name,
};
use pybundler::output::{finish_bundle, format_code};
use pybundler::resolver::{
    AncestorFile, DirProbe, ListedEntry, Lookup, ModuleResolver, RootCandidate, SourceBytes,
    SourceOutcome, dir_join_path, extension_module_exists, init_file_path,
    is_extension_module_name, module_file_path, module_source_outcome, read_module_source,
    split_importable_zip_path, split_zip_member, zip_names,
};
use pybundler::tree_shaking::{
    FixSafety, ImportSpan, LintFix, LintOutcome, TextEdit, TreeShaker, fixes_in_order,
    protected_ranges, shake_pass_exec,
};

fn probe(dir: &str, name: &str, init_py: bool, module_py: bool, is_dir: bool) -> DirProbe {
    DirProbe {
        dir: dir.to_string(),
        name: name.to_string(),
        init_extension: false,
        init_py: Ok(init_py),
        init_pyc: Ok(false),
        module_extension: false,
        module_py: Ok(module_py),
        module_pyc: Ok(false),
        package_dir_is_dir: is_dir || init_py,
    }
}

fn dir_root(path: &str, from_sys_path: bool) -> RootCandidate {
    RootCandidate {
        path: path.to_string(),
        from_sys_path,
        is_dir: true,
        ancestors: Vec::new(),
    }
}

fn make_zip(entries: &[(&str, &str)]) -> Vec<u8> {
    let mut cursor = std::io::Cursor::new(Vec::new());
    {
        let mut writer = zip::ZipWriter::new(&mut cursor);
        let options = zip::write::SimpleFileOptions::default()
            .compression_method(zip::CompressionMethod::Stored);
        for (name, content) in entries {
            writer.start_file(*name, options).expect("start zip entry");
            writer.write_all(content.as_bytes()).expect("write zip entry");
        }
        writer.finish().expect("finish zip");
    }
    cursor.into_inner()
}

fn request(name: &str, line: usize) -> ImportRequest {
    ImportRequest {
        module_name: name.to_string(),
        line,
        is_relative: false,
        relative_level: 0,
        must_resolve: false,
        require_parent_packages: true,
        force_bundle: false,
        expand_all: false,
    }
}

#[test]
fn budget_counts_and_refuses_beyond_limit() {
    let mut budget = ImportedModuleBudget {
        max_imported_modules: 1,
        imported_count: 0,
    };
    assert!(budget.track("a").is_ok());
    assert_eq!(budget.imported_count, 1);
    let error = budget.track("b").expect_err("limit reached");
    assert_eq!(error, "imported module limit of 1 exceeded while resolving \"b\"");
    assert_eq!(budget.imported_count, 1);
}

#[test]
fn resolution_asks_for_probes_then_finds_module() {
    let resolver = ModuleResolver::new(&[dir_root("/proj", false)]);
    match resolver.resolve_module("pkg.mod", &[]) {
        Lookup::NeedProbe(dir, name) => {
            assert_eq!(dir, "/proj");
            assert_eq!(name, "pkg");
        }
        other => panic!("unexpected {other:?}"),
    }
    let probes = vec![
        probe("/proj", "pkg", true, false, true),
        probe("/proj/pkg", "mod", false, true, false),
    ];
    match resolver.resolve_module(" pkg.mod ", &probes) {
        Lookup::Found(Some(module)) => {
            assert_eq!(module.name, "pkg.mod");
            assert_eq!(module.file_path, "/proj/pkg/mod.py");
            assert!(!module.is_package);
            assert!(!module.synthetic);
            assert!(!module.from_sys_path);
        }
        other => panic!("unexpected {other:?}"),
    }
}

#[test]
fn package_takes_precedence_over_module() {
    let resolver = ModuleResolver::new(&[dir_root("/proj", false)]);
    let probes = vec![probe("/proj", "dup", true, true, true)];
    match resolver.resolve_module("dup", &probes) {
        Lookup::Found(Some(module)) => {
            assert_eq!(module.file_path, "/proj/dup/__init__.py");
            assert!(module.is_package);
        }
        other => panic!("unexpected {other:?}"),
    }
}

#[test]
fn namespace_package_is_synthetic() {
    let resolver = ModuleResolver::new(&[dir_root("/proj", false), dir_root("/site", true)]);
    let probes = vec![
        probe("/proj", "ns", false, false, true),
        probe("/site", "ns", false, false, true),
    ];
    match resolver.resolve_module("ns", &probes) {
        Lookup::Found(Some(module)) => {
            assert_eq!(module.file_path, "<namespace:ns>");
            assert!(module.is_package);
            assert!(module.synthetic);
            assert!(!module.from_sys_path);
        }
        other => panic!("unexpected {other:?}"),
    }
}

#[test]
fn empty_and_invalid_module_names() {
    let resolver = ModuleResolver::new(&[dir_root("/proj", false)]);
    assert!(matches!(resolver.resolve_module("  ", &[]), Lookup::Found(None)));
    match resolver.resolve_module("a..b", &[]) {
        Lookup::Failed(error) => assert_eq!(error, "invalid module name \"a..b\""),
        other => panic!("unexpected {other:?}"),
    }
}

#[test]
fn stat_failure_is_reported() {
    let resolver = ModuleResolver::new(&[dir_root("/proj", false)]);
    let mut p = probe("/proj", "locked", false, false, false);
    p.init_py = Err("stat /proj/locked/__init__.py: permission denied".to_string());
    match resolver.resolve_module("locked", &[p]) {
        Lookup::Failed(error) => assert!(error.contains("permission denied")),
        other => panic!("unexpected {other:?}"),
    }
}

#[test]
fn roots_skip_empty_duplicate_and_missing_paths() {
    let resolver = ModuleResolver::new(&[
        dir_root("", false),
        dir_root("/proj", false),
        dir_root("/proj", true),
        RootCandidate {
            path: "/missing".to_string(),
            from_sys_path: true,
            is_dir: false,
            ancestors: Vec::new(),
        },
    ]);
    assert_eq!(resolver.roots.len(), 1);
}

#[test]
fn zip_archives_are_listed_and_split() {
    let bytes = make_zip(&[("pkg/__init__.py", ""), ("pkg/mod.py", "X = 1\n")]);
    let names = zip_names(&bytes);
    assert_eq!(names, vec!["pkg/__init__.py".to_string(), "pkg/mod.py".to_string()]);
    assert!(zip_names(b"not a zip").is_empty());
    let ancestors = vec![
        AncestorFile {
            path: "/x/lib.zip/sub".to_string(),
            bytes: None,
        },
        AncestorFile {
            path: "/x/lib.zip".to_string(),
            bytes: Some(bytes.clone()),
        },
        AncestorFile {
            path: "/x".to_string(),
            bytes: None,
        },
    ];
    let (archive, prefix, listed) =
        split_importable_zip_path("/x/lib.zip/sub", &ancestors).expect("inside a zip");
    assert_eq!(archive, "/x/lib.zip");
    assert_eq!(prefix, "sub");
    assert_eq!(listed.len(), 2);
}

#[test]
fn modules_resolve_and_read_inside_zip() {
    let bytes = make_zip(&[("pkg/__init__.py", ""), ("pkg/mod.py", "X = 1\n")]);
    let resolver = ModuleResolver::new(&[RootCandidate {
        path: "/x/lib.zip".to_string(),
        from_sys_path: true,
        is_dir: false,
        ancestors: vec![AncestorFile {
            path: "/x/lib.zip".to_string(),
            bytes: Some(bytes.clone()),
        }],
    }]);
    let module = match resolver.resolve_module("pkg.mod", &[]) {
        Lookup::Found(Some(module)) => module,
        other => panic!("unexpected {other:?}"),
    };
    assert_eq!(module.file_path, "/x/lib.zip::pkg/mod.py");
    assert!(module.from_sys_path);
    let (archive, entry) = split_zip_member(&module.file_path).expect("zip member");
    let source = read_module_source(
        "pkg.mod",
        &module.file_path,
        SourceBytes::Zip(archive.clone(), entry, Ok(bytes.clone())),
    )
    .expect("read zip entry");
    assert_eq!(source, "X = 1\n");
    let missing = read_module_source(
        "pkg.gone",
        "/x/lib.zip::pkg/gone.py",
        SourceBytes::Zip(archive.clone(), "pkg/gone.py".to_string(), Ok(bytes)),
    )
    .expect_err("missing entry");
    assert!(missing.starts_with(
        "read module \"pkg.gone\" (/x/lib.zip::pkg/gone.py): entry pkg/gone.py in /x/lib.zip: "
    ));
    let corrupt = read_module_source(
        "m",
        "/x/lib.zip::m.py",
        SourceBytes::Zip(archive, "m.py".to_string(), Ok(b"garbage".to_vec())),
    )
    .expect_err("corrupt archive");
    assert!(corrupt.starts_with("read module \"m\" (/x/lib.zip::m.py): read zip /x/lib.zip: "));
}

#[test]
fn file_read_failures_name_the_module() {
    let error = read_module_source(
        "m",
        "/p/m.py",
        SourceBytes::File(Err("No such file".to_string())),
    )
    .expect_err("unreadable");
    assert_eq!(error, "read module \"m\" (/p/m.py): read file /p/m.py: No such file");
    assert_eq!(split_zip_member("/p/m.py"), None);
}

#[test]
fn extension_module_names() {
    assert!(is_extension_module_name("foo.so", "foo"));
    assert!(is_extension_module_name("foo.pyd", "foo"));
    assert!(is_extension_module_name("foo.cpython-311-x86_64-linux-gnu.so", "foo"));
    assert!(is_extension_module_name("foo.abi3.so", "foo"));
    assert!(is_extension_module_name("foo.cp311-win_amd64.pyd", "foo"));
    assert!(!is_extension_module_name("foo.txt", "foo"));
    assert!(!is_extension_module_name("foobar.so", "foo"));
    assert!(!is_extension_module_name("foo.other.so", "foo"));
    let listing = vec![ListedEntry {
        name: "foo.so".to_string(),
        is_file: false,
    }];
    assert!(!extension_module_exists(&listing, "foo"));
}

#[test]
fn module_names_from_paths() {
    assert_eq!(
        module_name_from_path("/proj", "/proj/pkg/mod.py", None),
        Ok(("pkg.mod".to_string(), false))
    );
    assert_eq!(
        module_name_from_path("/proj", "/proj/pkg/__init__.py", None),
        Ok(("pkg".to_string(), true))
    );
    assert_eq!(
        module_name_from_path("/proj", "/other/x.py", None),
        Err("entry file /other/x.py must be inside project root /proj".to_string())
    );
    assert_eq!(
        module_name_from_path("/proj", "/proj/notes.txt", None),
        Err("python module path must end with .py: /proj/notes.txt".to_string())
    );
    assert_eq!(
        module_name_from_path("/proj", "/proj/PKG/__INIT__.PY", Some("/proj/PKG/__INIT__.PY")),
        Ok(("PKG".to_string(), true))
    );
    assert_eq!(rel_components_to_module_name("a/./b/../c"), "a.b.c");
}

#[test]
fn does_not_treat_differently_cased_init_as_package_on_case_sensitive_fs() {
    let module = module_name_from_path("/tmp/root", "/tmp/root/__INIT__.PY", None)
        .expect("derive module name");
    assert_eq!(module, ("__INIT__".to_string(), false));
}

#[test]
fn entry_file_checks() {
    assert_eq!(check_entry_argument("  "), Err("entry file is required".to_string()));
    assert_eq!(check_entry_argument("main.py"), Ok(()));
    assert_eq!(entry_project_root("/proj/main.py", false), Ok("/proj".to_string()));
    assert_eq!(entry_project_root("/main.py", false), Ok("/".to_string()));
    assert_eq!(
        entry_project_root("/proj", true),
        Err("entry file must be a Python file, got directory: /proj".to_string())
    );
    assert_eq!(
        entry_project_root("/proj/main.txt", false),
        Err("entry file must end with .py: /proj/main.txt".to_string())
    );
    assert_eq!(parent_of("a"), Some(String::new()));
    assert_eq!(parent_of("/"), None);
}

#[test]
fn newline_normalization_is_idempotent() {
    let once = normalize_python_newlines("a\r\nb\rc\n");
    assert_eq!(once, "a\nb\nc\n");
    assert_eq!(normalize_python_newlines(&once), once);
}

#[test]
fn formatting_goes_through_ruff() {
    assert_eq!(format_code("x=1"), "x = 1\n");
    assert_eq!(format_code("def ("), "def (");
}

fn unused_os_fix(safety: FixSafety) -> LintFix {
    LintFix {
        range: Some((7, 9)),
        fix: Some((
            safety,
            vec![TextEdit {
                start: 0,
                end: 10,
                content: String::new(),
            }],
        )),
    }
}

#[test]
fn safe_fixes_outside_bundle_imports_apply() {
    let source = "import os\nx = 1\n";
    assert_eq!(
        shake_pass_exec(source, &[unused_os_fix(FixSafety::Safe)], &[]),
        Some("x = 1\n".to_string())
    );
    assert_eq!(shake_pass_exec(source, &[unused_os_fix(FixSafety::Unsafe)], &[]), None);
    assert_eq!(shake_pass_exec(source, &[unused_os_fix(FixSafety::Safe)], &[(0, 9)]), None);
}

#[test]
fn overlapping_fixes_apply_once_in_start_order() {
    let source = "abcdef";
    let later = LintFix {
        range: None,
        fix: Some((
            FixSafety::Safe,
            vec![TextEdit {
                start: 4,
                end: 5,
                content: "X".to_string(),
            }],
        )),
    };
    let earlier = LintFix {
        range: None,
        fix: Some((
            FixSafety::Safe,
            vec![TextEdit {
                start: 1,
                end: 3,
                content: "Y".to_string(),
            }],
        )),
    };
    let overlapping = LintFix {
        range: None,
        fix: Some((
            FixSafety::Safe,
            vec![TextEdit {
                start: 2,
                end: 4,
                content: "Z".to_string(),
            }],
        )),
    };
    assert_eq!(
        shake_pass_exec(source, &[later, overlapping, earlier], &[]),
        Some("aYdXf".to_string())
    );
}

#[test]
fn bundle_directive_protects_import() {
    let spans = vec![ImportSpan {
        line: 0,
        start: 0,
        end: 9,
    }];
    let comments = vec![CommentInfo {
        line: 0,
        text: "# bundle".to_string(),
        leading: "import os ".to_string(),
    }];
    assert_eq!(protected_ranges(&spans, &comments), vec![(0, 9)]);
    assert!(protected_ranges(&spans, &[]).is_empty());
}

#[test]
fn tree_shaker_keeps_unparsable_source_and_stops_without_fixes() {
    let mut shaker = TreeShaker::new("a(");
    assert_eq!(shaker.feed(LintOutcome::InvalidSyntax), Some("a(".to_string()));
    let mut shaker = TreeShaker::new("import os\nx = 1\n");
    assert_eq!(
        shaker.feed(LintOutcome::Checked(
            vec![unused_os_fix(FixSafety::Safe)],
            Vec::new(),
            Vec::new()
        )),
        None
    );
    assert_eq!(shaker.current(), "x = 1\n");
    assert_eq!(
        shaker.feed(LintOutcome::Checked(Vec::new(), Vec::new(), Vec::new())),
        Some("x = 1\n".to_string())
    );
}

fn clone_probe(p: &DirProbe) -> DirProbe {
    DirProbe {
        dir: p.dir.clone(),
        name: p.name.clone(),
        init_extension: p.init_extension,
        init_py: p.init_py.clone(),
        init_pyc: p.init_pyc.clone(),
        module_extension: p.module_extension,
        module_py: p.module_py.clone(),
        module_pyc: p.module_pyc.clone(),
        package_dir_is_dir: p.package_dir_is_dir,
    }
}

/// Runs the state machine against a made-up project.
fn run_state(
    state: &mut BundleState,
    resolver: &ModuleResolver,
    probes: &HashMap<(String, String), DirProbe>,
    sources: &HashMap<String, (Vec<ImportRequest>, String)>,
    all_names: &HashMap<String, Vec<String>>,
) -> Result<(), String> {
    let mut taken: Vec<DirProbe> = Vec::new();
    for _ in 0..1000 {
        match state.step(resolver, &taken) {
            BundleStep::Continue => {}
            BundleStep::Done => return Ok(()),
            BundleStep::Failed(error) => return Err(error),
            BundleStep::Probe(dir, name) => {
                let p = probes
                    .get(&(dir.clone(), name.clone()))
                    .map(clone_probe)
                    .unwrap_or_else(|| probe(&dir, &name, false, false, false));
                taken.push(p);
            }
            BundleStep::Analyze(name, _, _) => {
                let (requests, source) = sources.get(&name).expect("known module");
                let copy = requests
                    .iter()
                    .map(|r| ImportRequest {
                        module_name: r.module_name.clone(),
                        line: r.line,
                        is_relative: r.is_relative,
                        relative_level: r.relative_level,
                        must_resolve: r.must_resolve,
                        require_parent_packages: r.require_parent_packages,
                        force_bundle: r.force_bundle,
                        expand_all: r.expand_all,
                    })
                    .collect();
                let analysis = ModuleAnalysis {
                    import_requests: copy,
                    all_names: all_names.get(&name).cloned().unwrap_or_default(),
                };
                if let BundleStep::Failed(error) = state.module_analyzed(analysis, source.clone()) {
                    return Err(error);
                }
            }
        }
    }
    panic!("run did not finish");
}

fn sample_project() -> (
    ModuleResolver,
    HashMap<(String, String), DirProbe>,
    HashMap<String, (Vec<ImportRequest>, String)>,
) {
    let resolver = ModuleResolver::new(&[dir_root("/proj", false)]);
    let mut probes = HashMap::new();
    probes.insert(
        ("/proj".to_string(), "pkg".to_string()),
        probe("/proj", "pkg", true, false, true),
    );
    probes.insert(
        ("/proj/pkg".to_string(), "mod".to_string()),
        probe("/proj/pkg", "mod", false, true, false),
    );
    let mut sources = HashMap::new();
    sources.insert(
        "main".to_string(),
        (vec![request("pkg.mod", 0), request("os", 1)], "import pkg.mod\nimport os\n".to_string()),
    );
    sources.insert("pkg".to_string(), (Vec::new(), String::new()));
    sources.insert("pkg.mod".to_string(), (Vec::new(), "X = 1\n".to_string()));
    (resolver, probes, sources)
}

#[test]
fn bundles_a_small_project() {
    let (resolver, probes, sources) = sample_project();
    let mut state = BundleState::new("main", "/proj/main.py", false, false, &[], 2048);
    run_state(&mut state, &resolver, &probes, &sources, &HashMap::new()).expect("bundle");
    let result = finish_bundle(state, &[], false).expect("finish");
    let names = result
        .bundled_module_list
        .iter()
        .map(|m| m.name.as_str())
        .collect::<Vec<_>>();
    assert_eq!(names, ["main", "pkg", "pkg.mod"]);
    assert_eq!(result.entry_module, "main");
    assert_eq!(result.entry_file, "/proj/main.py");
    assert!(result.bundled_module_list[1].is_package);
    assert!(result.code.contains("import pkg.mod"));
    assert!(result.code.contains("if __name__ == \"__main__\":"));
}

#[test]
fn module_limit_stops_the_run() {
    let (resolver, probes, sources) = sample_project();
    let mut state = BundleState::new("main", "/proj/main.py", false, false, &[], 1);
    let error = run_state(&mut state, &resolver, &probes, &sources, &HashMap::new()).expect_err("limit");
    assert_eq!(error, "imported module limit of 1 exceeded while resolving \"pkg\"");
}

#[test]
fn external_packages_stay_runtime_imports() {
    let (resolver, probes, sources) = sample_project();
    let mut state = BundleState::new(
        "main",
        "/proj/main.py",
        false,
        false,
        &[" pkg/sub ".to_string()],
        2048,
    );
    run_state(&mut state, &resolver, &probes, &sources, &HashMap::new()).expect("bundle");
    let result = finish_bundle(state, &[], false).expect("finish");
    assert_eq!(result.bundled_module_list.len(), 1);
    assert_eq!(result.code, "import pkg.mod\nimport os\n");
}

#[test]
fn analysis_without_awaited_module_is_refused() {
    let mut state = BundleState::new("main", "/proj/main.py", false, false, &[], 2048);
    let step = state.module_analyzed(
        ModuleAnalysis {
            import_requests: Vec::new(),
            all_names: Vec::new(),
        },
        String::new(),
    );
    match step {
        BundleStep::Failed(error) => assert_eq!(error, "internal error: no module analysis is awaited"),
        other => panic!("unexpected {other:?}"),
    }
}

#[test]
fn python_literals_escape_quotes_and_controls() {
    assert_eq!(
        pybundler::codegen::python_string_literal("a\"b\\\n\u{1}\t"),
        "\"a\\\"b\\\\\\n\\x01\\t\""
    );
}

#[test]
fn license_text_is_the_first_existing_candidate() {
    let paths = vec![
        "pkg/__init__.py".to_string(),
        "pkg-1.0.dist-info/LICENSE".to_string(),
        "pkg-1.0.dist-info/NOTICE.txt".to_string(),
    ];
    let files = vec![
        RecordFile {
            path: "pkg-1.0.dist-info/LICENSE".to_string(),
            is_file: false,
            text: None,
        },
        RecordFile {
            path: "pkg-1.0.dist-info/NOTICE.txt".to_string(),
            is_file: true,
            text: Some("notice".to_string()),
        },
    ];
    assert_eq!(find_license_text(&paths, &files), Some("notice".to_string()));
    assert_eq!(find_license_text(&paths, &[]), None);
}

#[test]
fn zip_root_queries() {
    let bytes = make_zip(&[("a.py", "")]);
    let resolver = ModuleResolver::new(&[
        dir_root("/proj", false),
        RootCandidate {
            path: "/z.zip".to_string(),
            from_sys_path: true,
            is_dir: false,
            ancestors: vec![AncestorFile {
                path: "/z.zip".to_string(),
                bytes: Some(bytes),
            }],
        },
    ]);
    assert_eq!(resolver.zip_path(1), Ok("/z.zip".to_string()));
    assert_eq!(resolver.zip_contains(1, "a.py"), Ok(true));
    assert_eq!(resolver.zip_contains(1, "b.py"), Ok(false));
    assert_eq!(resolver.zip_has_prefix(1, "a."), Ok(true));
    assert_eq!(
        resolver.zip_contains(0, "a.py"),
        Err("internal error: invalid zip search root".to_string())
    );
}

fn sys_path_project() -> (
    ModuleResolver,
    HashMap<(String, String), DirProbe>,
    HashMap<String, (Vec<ImportRequest>, String)>,
) {
    let resolver = ModuleResolver::new(&[dir_root("/proj", false), dir_root("/site", true)]);
    let mut probes = HashMap::new();
    probes.insert(
        ("/site".to_string(), "lib".to_string()),
        probe("/site", "lib", false, true, false),
    );
    probes.insert(
        ("/site".to_string(), "dep".to_string()),
        probe("/site", "dep", false, true, false),
    );
    let mut sources = HashMap::new();
    sources.insert(
        "main".to_string(),
        (vec![request("lib", 0)], "import lib\n".to_string()),
    );
    sources.insert(
        "lib".to_string(),
        (vec![request("dep", 0)], "import dep\n".to_string()),
    );
    sources.insert("dep".to_string(), (Vec::new(), "D = 1\n".to_string()));
    (resolver, probes, sources)
}

fn bundled_names(state: BundleState) -> Vec<String> {
    finish_bundle(state, &[], false)
        .expect("finish")
        .bundled_module_list
        .into_iter()
        .map(|m| m.name)
        .collect()
}

#[test]
fn sys_path_imports_need_a_directive() {
    let (resolver, probes, sources) = sys_path_project();
    let mut state = BundleState::new("main", "/proj/main.py", false, false, &[], 2048);
    run_state(&mut state, &resolver, &probes, &sources, &HashMap::new()).expect("bundle");
    assert_eq!(bundled_names(state), ["main"]);
}

#[test]
fn admitted_sys_path_modules_bundle_their_imports() {
    let (resolver, probes, sources) = sys_path_project();
    let mut state = BundleState::new("main", "/proj/main.py", false, true, &[], 2048);
    run_state(&mut state, &resolver, &probes, &sources, &HashMap::new()).expect("bundle");
    assert_eq!(bundled_names(state), ["dep", "lib", "main"]);
}

#[test]
fn bundle_directive_admits_a_sys_path_module() {
    let (resolver, probes, mut sources) = sys_path_project();
    let mut marked = request("lib", 0);
    marked.force_bundle = true;
    sources.insert("main".to_string(), (vec![marked], "import lib  # bundle\n".to_string()));
    let mut state = BundleState::new("main", "/proj/main.py", false, false, &[], 2048);
    run_state(&mut state, &resolver, &probes, &sources, &HashMap::new()).expect("bundle");
    assert_eq!(bundled_names(state), ["dep", "lib", "main"]);
}

#[test]
fn split_then_join_gives_back_the_text() {
    use_split_join("a.b..c");
    use_split_join("");
}

fn use_split_join(s: &str) {
    let chars = pybundler::text::to_chars(s);
    let parts = pybundler::text::split_chars(&chars, '.');
    let joined = pybundler::text::join_chars(&parts, '.');
    assert_eq!(pybundler::text::from_chars(&joined), s);
}

#[test]
fn star_import_expands_package_all() {
    let (resolver, probes, mut sources) = sample_project();
    let mut star = request("pkg", 0);
    star.expand_all = true;
    sources.insert("main".to_string(), (vec![star], "from pkg import *\n".to_string()));
    let mut all = HashMap::new();
    all.insert("pkg".to_string(), vec!["mod".to_string(), "*".to_string(), String::new()]);
    let mut state = BundleState::new("main", "/proj/main.py", false, false, &[], 2048);
    run_state(&mut state, &resolver, &probes, &sources, &all).expect("bundle");
    assert_eq!(bundled_names(state), ["main", "pkg", "pkg.mod"]);
}

#[test]
fn sys_path_entries_are_kept_once_when_importable() {
    use_admit();
}

fn use_admit() {
    let entry = |path: &str, is_dir: bool, bytes: Option<Vec<u8>>| pybundler::sys_paths::PathEntry {
        path: path.to_string(),
        is_dir,
        ancestors: vec![AncestorFile {
            path: path.to_string(),
            bytes,
        }],
    };
    let entries = vec![
        entry("/a", true, None),
        entry("/a", true, None),
        entry("/b", false, None),
        entry("/z.zip", false, Some(make_zip(&[("m.py", "")]))),
    ];
    assert_eq!(pybundler::sys_paths::admit_sys_paths(&entries), ["/a", "/z.zip"]);
}

#[test]
fn encoding_declarations_are_rewritten_to_utf8() {
    assert_eq!(normalize_encoding_declaration("# coding: latin-1\nx = 'é'\n"), "# coding: utf-8\nx = 'é'\n");
    assert_eq!(
        normalize_encoding_declaration("#!/usr/bin/env python\n# -*- coding: ISO-8859-1 -*-\npass\n"),
        "#!/usr/bin/env python\n# -*- coding: utf-8 -*-\npass\n"
    );
    assert_eq!(normalize_encoding_declaration("x = 1\n# coding: latin-1\n"), "x = 1\n# coding: latin-1\n");
    assert_eq!(normalize_encoding_declaration("# coding: UTF8\n"), "# coding: UTF8\n");
    assert_eq!(normalize_encoding_declaration("# vim: set fileencoding=ascii :\n"), "# vim: set fileencoding=utf-8 :\n");
}

#[test]
fn rewritten_declarations_name_utf8() {
    for src in ["# coding=cp1252 -*-\n", "\n# coding: koi8_r\nx = 1\n", "# -*- coding:latin-1\r\n"] {
        let once = normalize_encoding_declaration(src);
        assert!(once.contains("utf-8"));
        assert_eq!(normalize_encoding_declaration(&once), once);
    }
}

#[test]
fn static_fromlist_requests_submodules() {
    let syntax = ModuleSyntax {
        assignments: Vec::new(),
        events: vec![SyntaxEvent::Call(
            2,
            CallInfo {
                func: PyExpr::Name("__import__".to_string()),
                args: vec![PyExpr::Str("pkg".to_string())],
                keywords: vec![KeywordInfo {
                    arg: Some("fromlist".to_string()),
                    value: PyExpr::List(vec![
                        PyExpr::Str("a".to_string()),
                        PyExpr::Str("*".to_string()),
                    ]),
                }],
            },
        )],
        comments: Vec::new(),
    };
    let analysis = analyze_module("main", false, "/proj/main.py", &syntax).expect("analyze");
    let names = analysis
        .import_requests
        .iter()
        .map(|r| (r.module_name.as_str(), r.expand_all, r.line))
        .collect::<Vec<_>>();
    assert_eq!(names, [("pkg", true, 2), ("pkg.a", false, 2)]);
}

#[test]
fn decoding_errors_name_the_problem() {
    use_decode_errors();
}

fn use_decode_errors() {
    let decode = pybundler::encoding::decode_python_source;
    let invalid = decode(b"x = '\xff'\n", "m.py").expect_err("invalid UTF-8");
    assert!(invalid.starts_with("decode m.py as UTF-8: "));
    assert_eq!(
        decode(b"# coding: ascii\n\xe9\n", "m.py"),
        Err("decode m.py as ASCII: non-ASCII byte at offset 16".to_string())
    );
    assert_eq!(
        decode(b"# coding: cp1252\n", "m.py"),
        Err("unsupported source encoding \"cp1252\" in m.py".to_string())
    );
    assert_eq!(decode(b"\xef\xbb\xbfx = 1\n", "m.py"), Ok("x = 1\n".to_string()));
}

#[test]
fn relative_import_needs_a_package() {
    assert_eq!(
        pybundler::names::resolve_relative_module_name("main", false, "x", 1),
        Err("relative import requires a package context".to_string())
    );
    assert_eq!(
        pybundler::names::resolve_relative_module_name("pkg.mod", false, " sub ", 1),
        Ok("pkg.sub".to_string())
    );
}

#[test]
fn unresolved_required_import_fails_with_its_line() {
    let (resolver, probes, mut sources) = sample_project();
    let mut required = request("missing", 4);
    required.must_resolve = true;
    sources.insert("main".to_string(), (vec![required], "from .missing import x\n".to_string()));
    let mut state = BundleState::new("main", "/proj/main.py", false, false, &[], 2048);
    let error = run_state(&mut state, &resolver, &probes, &sources, &HashMap::new())
        .expect_err("missing module");
    assert_eq!(error, "failed to resolve import \"missing\" in /proj/main.py at line 5");
}

#[test]
fn relative_import_from_top_level_module_fails() {
    let (resolver, probes, mut sources) = sample_project();
    let mut relative = request("x", 0);
    relative.is_relative = true;
    relative.relative_level = 1;
    relative.must_resolve = true;
    sources.insert("main".to_string(), (vec![relative], "from . import x\n".to_string()));
    let mut state = BundleState::new("main", "/proj/main.py", false, false, &[], 2048);
    let error = run_state(&mut state, &resolver, &probes, &sources, &HashMap::new())
        .expect_err("no package");
    assert_eq!(
        error,
        "resolve relative import in /proj/main.py at line 1: relative import requires a package context"
    );
}

#[test]
fn resolution_failure_names_the_import() {
    let resolver = ModuleResolver::new(&[dir_root("/proj", false)]);
    let mut probes = HashMap::new();
    let mut locked = probe("/proj", "locked", false, false, false);
    locked.init_py = Err("stat /proj/locked/__init__.py: denied".to_string());
    probes.insert(("/proj".to_string(), "locked".to_string()), locked);
    let mut sources = HashMap::new();
    sources.insert("main".to_string(), (vec![request("locked", 0)], String::new()));
    let mut state = BundleState::new("main", "/proj/main.py", false, false, &[], 2048);
    let error = run_state(&mut state, &resolver, &probes, &sources, &HashMap::new())
        .expect_err("stat failure");
    assert_eq!(error, "resolve import \"locked\" in /proj/main.py at line 1: stat /proj/locked/__init__.py: denied");
}

#[test]
fn import_module_cannot_climb_above_the_package() {
    let err = resolve_relative_name_with_package_arg("pkg", "..other").unwrap_err();
    assert!(err.contains("beyond top-level"));
    assert_eq!(resolve_relative_name_with_package_arg("pkg", ".other").unwrap(), "pkg.other");
    assert_eq!(resolve_relative_name_with_package_arg("a.b", "..c").unwrap(), "a.c");
    assert!(resolve_relative_name_with_package_arg("a.b", "...c").is_err());
}

#[test]
fn encoding_declarations_must_start_the_line() {
    assert_eq!(find_encoding_in_line(b"x = 1  # coding: latin-1"), None);
    assert_eq!(find_encoding_in_line(b" \t\x0c# coding: latin-1"), Some(b"latin-1".to_vec()));
    assert_eq!(find_encoding_in_line(b"#!python # coding: latin-1"), Some(b"latin-1".to_vec()));
    assert_eq!(normalize_encoding_declaration("x = 1  # coding: latin-1\n"), "x = 1  # coding: latin-1\n");
}

/// Runs a project whose modules are given as file bytes, reading each with
/// `module_source_outcome`; `imports` are the requests of the modules that
/// get analyzed.
fn run_with_bytes(
    state: &mut BundleState,
    resolver: &ModuleResolver,
    probes: &HashMap<(String, String), DirProbe>,
    files: &HashMap<String, Vec<u8>>,
    imports: &HashMap<String, Vec<ImportRequest>>,
) -> Result<(), String> {
    let mut taken: Vec<DirProbe> = Vec::new();
    for _ in 0..1000 {
        let next = match state.step(resolver, &taken) {
            BundleStep::Continue => continue,
            BundleStep::Done => return Ok(()),
            BundleStep::Failed(error) => return Err(error),
            BundleStep::Probe(dir, name) => {
                let p = probes
                    .get(&(dir.clone(), name.clone()))
                    .map(clone_probe)
                    .unwrap_or_else(|| probe(&dir, &name, false, false, false));
                taken.push(p);
                continue;
            }
            BundleStep::Analyze(name, path, _) => {
                let bytes = files.get(&path).expect("known file").clone();
                match module_source_outcome(&name, &path, SourceBytes::File(Ok(bytes))) {
                    SourceOutcome::Text(source) => {
                        let requests = imports
                            .get(&name)
                            .map(|rs| rs.iter().map(|r| request(&r.module_name, r.line)).collect())
                            .unwrap_or_default();
                        let analysis = ModuleAnalysis { import_requests: requests, all_names: Vec::new() };
                        state.module_analyzed(analysis, source)
                    }
                    SourceOutcome::Runtime(reason) => state.module_left_at_runtime(reason),
                    SourceOutcome::Failed(error) => return Err(error),
                }
            }
        };
        if let BundleStep::Failed(error) = next {
            return Err(error);
        }
    }
    panic!("run did not finish");
}

#[test]
fn modules_in_unsupported_codecs_stay_runtime_dependencies() {
    let resolver = ModuleResolver::new(&[dir_root("/proj", false)]);
    let mut probes = HashMap::new();
    probes.insert(("/proj".to_string(), "legacy".to_string()), probe("/proj", "legacy", false, true, false));
    probes.insert(("/proj".to_string(), "util".to_string()), probe("/proj", "util", false, true, false));
    let mut files = HashMap::new();
    files.insert("/proj/main.py".to_string(), b"import legacy\nimport util\n".to_vec());
    files.insert("/proj/legacy.py".to_string(), b"# coding: cp1252\nX = '\x80'\n".to_vec());
    files.insert("/proj/util.py".to_string(), b"Y = 2\n".to_vec());
    let mut imports = HashMap::new();
    imports.insert("main".to_string(), vec![request("legacy", 0), request("util", 1)]);
    let mut state = BundleState::new("main", "/proj/main.py", false, false, &[], 2);
    run_with_bytes(&mut state, &resolver, &probes, &files, &imports).expect("bundle");
    let result = finish_bundle(state, &[], false).expect("finish");
    let names = result.bundled_module_list.iter().map(|m| m.name.as_str()).collect::<Vec<_>>();
    assert_eq!(names, ["main", "util"]);
    assert!(!result.code.contains("legacy.py"));
}

#[test]
fn an_entry_in_an_unsupported_codec_fails() {
    let resolver = ModuleResolver::new(&[dir_root("/proj", false)]);
    let mut files = HashMap::new();
    files.insert("/proj/main.py".to_string(), b"# -*- coding: koi8-r -*-\n".to_vec());
    let mut state = BundleState::new("main", "/proj/main.py", false, false, &[], 8);
    let error = run_with_bytes(&mut state, &resolver, &HashMap::new(), &files, &HashMap::new())
        .expect_err("entry cannot stay at run time");
    assert!(error.contains("unsupported source encoding \"koi8-r\""));
}

#[test]
fn unsupported_codec_detection() {
    assert!(declares_unsupported_codec(b"# coding: cp1252\n"));
    assert!(declares_unsupported_codec(b"#!/usr/bin/python\n# vim: fileencoding=shift_jis\n"));
    assert!(!declares_unsupported_codec(b"# coding: latin-1\n"));
    assert!(!declares_unsupported_codec(b"# coding: UTF_8\n"));
    assert!(!declares_unsupported_codec(b"x = 1\n"));
    assert!(!declares_unsupported_codec(b"\xef\xbb\xbf# coding: cp1252\n"));
    assert!(!declares_unsupported_codec(b"x = 1  # coding: cp1252\n"));
    match module_source_outcome("m", "m.py", SourceBytes::File(Ok(b"\xef\xbb\xbf# coding: cp1252\n".to_vec()))) {
        SourceOutcome::Failed(e) => assert!(e.contains("BOM conflicts")),
        other => panic!("unexpected {other:?}"),
    }
}

#[test]
fn probe_paths_are_built_by_the_library() {
    assert_eq!(dir_join_path("/proj", "pkg"), "/proj/pkg");
    assert_eq!(dir_join_path("/", "pkg"), "/pkg");
    assert_eq!(dir_join_path("", "pkg"), "pkg");
    assert_eq!(init_file_path("/proj/", "pkg"), "/proj/pkg/__init__.py");
    assert_eq!(module_file_path("/proj", "mod"), "/proj/mod.py");
}

#[test]
fn fix_edits_are_checked_for_order() {
    let edit = |start: usize, end: usize| TextEdit { start, end, content: String::new() };
    let fix = |edits: Vec<TextEdit>| LintFix { range: None, fix: Some((FixSafety::Safe, edits)) };
    assert!(fixes_in_order(&[fix(vec![edit(0, 2), edit(2, 4)])], 4));
    assert!(!fixes_in_order(&[fix(vec![edit(0, 3), edit(2, 4)])], 4));
    assert!(!fixes_in_order(&[fix(vec![edit(3, 2)])], 4));
    assert!(!fixes_in_order(&[fix(vec![edit(0, 5)])], 4));
    assert!(fixes_in_order(&[LintFix { range: Some((0, 9)), fix: None }], 4));
}

fn laid_out(source: &str) -> (String, String) {
    let chars: Vec<char> = source.chars().collect();
    let (futs, body) = lay_out(&chars);
    (futs.into_iter().collect(), body.into_iter().collect())
}

#[test]
fn sources_are_indented_outside_strings() {
    let (futs, body) =
        laid_out("from __future__ import annotations\nS = \"\"\"a\n  b\"\"\"\nT = 'x\\\ny'\n# it's\nX = 1\n");
    assert_eq!(futs, "from __future__ import annotations\n");
    assert_eq!(body, "\tS = \"\"\"a\n  b\"\"\"\n\tT = 'x\\\ny'\n\t# it's\n\tX = 1\n");
    let (futs, body) = laid_out("s = '''\nfrom __future__ import x\n'''\n");
    assert_eq!(futs, "");
    assert_eq!(body, "\ts = '''\nfrom __future__ import x\n'''\n");
}

#[test]
fn bundles_have_one_block_per_module() {
    let (resolver, probes, mut sources) = sample_project();
    sources.insert(
        "pkg.mod".to_string(),
        (Vec::new(), "from __future__ import annotations\nX = '''1\n2'''\n".to_string()),
    );
    let mut state = BundleState::new("main", "/proj/main.py", false, false, &[], 2048);
    run_state(&mut state, &resolver, &probes, &sources, &HashMap::new()).expect("bundle");
    let code = finish_bundle(state, &[], false).expect("finish").code;
    assert!(code.starts_with("from __future__ import annotations\nif __name__ == \"__main__\":\n"));
    assert!(code.contains("if __name__ == \"pkg.mod\":\n\tX = '''1\n2'''\n\tpass\n"));
    assert!(code.contains("if __name__ == \"pkg\":\n\tpass\n"));
    assert!(code.ends_with(
        "if __name__ == \"main\" or __name__ == \"__main__\":\n\timport pkg.mod\n\timport os\n\tpass\n"
    ));
    assert!(code.contains("\t\t\t\"pkg\": (\"pkg/__init__.py\", True, False),\n"));
    assert!(code.contains("if __name__ == \"main\""));
}

#[test]
fn unused_imports_are_removed() {
    assert_eq!(remove_unused_imports("import os\nimport sys\nprint(sys)\n"), "import sys\nprint(sys)\n");
    assert_eq!(remove_unused_imports("s = 'é'\nimport os\nx = 1\n"), "s = 'é'\nx = 1\n");
    let partial = remove_unused_imports("from os import path, sep\nprint(sep)\n");
    assert!(partial.contains("sep") && !partial.contains("path"));
    assert_eq!(remove_unused_imports("x = 1\n"), "x = 1\n");
}

#[test]
fn bundle_marked_imports_are_kept() {
    let source = "import os  # bundle\n# bundle\nimport json\nimport re\nx = 1\n";
    assert_eq!(remove_unused_imports(source), "import os  # bundle\n# bundle\nimport json\nx = 1\n");
}

#[test]
fn invalid_sources_are_not_shaken() {
    let source = "import os\ndef (:\n";
    assert_eq!(remove_unused_imports(source), source);
    assert!(matches!(lint_outcome(source), LintOutcome::InvalidSyntax));
}

#[test]
fn lint_outcome_reports_imports_and_comments() {
    match lint_outcome("é = 1\nif é:\n    import os  # bundle\n") {
        LintOutcome::Checked(fixes, spans, comments) => {
            assert_eq!(fixes.len(), 1);
            assert_eq!(fixes[0].range, Some((23, 25)));
            assert_eq!(spans.len(), 1);
            assert_eq!((spans[0].line, spans[0].start, spans[0].end), (2, 16, 35));
            assert_eq!(comments.len(), 1);
            assert_eq!((comments[0].line, comments[0].text.as_str(), comments[0].leading.as_str()), (2, "# bundle", "    import os  "));
        }
        LintOutcome::InvalidSyntax => panic!("source parses"),
    }
}

#[test]
fn tokens_have_character_positions() {
    let toks = tokens("é = 'ü'  # c\n");
    let strings: Vec<(usize, usize)> =
        toks.iter().filter(|t| t.class == TokenClass::String).map(|t| (t.start, t.end)).collect();
    assert_eq!(strings, vec![(4, 7)]);
    let comments: Vec<(usize, usize)> =
        toks.iter().filter(|t| t.class == TokenClass::Comment).map(|t| (t.start, t.end)).collect();
    assert_eq!(comments, vec![(9, 12)]);
}

#[test]
fn nested_fstrings_are_not_indented() {
    let (_, body) = laid_out("x = f\"\"\"{\n'\"\"\"'\n}\"\"\"\ny = 1\n");
    assert_eq!(body, "\tx = f\"\"\"{\n'\"\"\"'\n}\"\"\"\n\ty = 1\n");
    let (_, body) = laid_out("x = f'''{a}\n{b}'''\n");
    assert_eq!(body, "\tx = f'''{a}\n{b}'''\n");
}

#[test]
fn comments_come_with_lines_and_leading_text() {
    let comments = pybundler::unused_imports::source_comments("x = '# no'\n  # one\ny = 2  # two\n");
    let got: Vec<(usize, &str, &str)> =
        comments.iter().map(|c| (c.line, c.text.as_str(), c.leading.as_str())).collect();
    assert_eq!(got, vec![(1, "# one", "  "), (2, "# two", "y = 2  ")]);
}
