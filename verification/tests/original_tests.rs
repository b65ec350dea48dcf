use pybundler::encoding::decode_python_source;
use pybundler::names::resolve_relative_module_name;
use pybundler::sys_paths::{cli_interpreters, default_interpreters, sys_path_tokens};

#[test]
fn uses_platform_interpreters_by_default() {
    let interpreters = cli_interpreters(Vec::new(), false);

    assert_eq!(interpreters, default_interpreters(false));
}

#[test]
fn explicit_interpreters_replace_platform_defaults() {
    let interpreters = cli_interpreters(vec!["custom-python".to_string()], false);

    assert_eq!(interpreters, ["custom-python"]);
}

#[test]
fn decodes_pep_263_latin_1_source() {
    let source = decode_python_source(b"# coding: latin-1\nVALUE = '\xe9'\n", "module.py")
        .expect("decode Latin-1 source");
    assert_eq!(source, "# coding: latin-1\nVALUE = 'é'\n");
}

#[test]
fn rejects_conflicting_bom_and_encoding_cookie() {
    let error = decode_python_source(b"\xef\xbb\xbf# coding: latin-1\n", "module.py")
        .expect_err("conflicting BOM must fail");
    assert!(error.contains("BOM conflicts"));
}

#[test]
fn rejects_relative_import_beyond_top_level() {
    let error = resolve_relative_module_name("pkg.module", false, "other", 2)
        .expect_err("relative import beyond top level must fail");
    assert!(error.contains("beyond top-level"));
}

#[test]
fn preserves_non_utf8_sys_path_entries() {
    let tokens = sys_path_tokens(b"/tmp/non-utf8-\xff\0/tmp/other".to_vec());

    assert_eq!(tokens[0].as_slice(), b"/tmp/non-utf8-\xff");
    assert_eq!(tokens[1].as_slice(), b"/tmp/other");
}
