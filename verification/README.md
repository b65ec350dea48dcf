# pybundler

Bundles a Python entry file and its local imports into one standalone
script. The library under `src/` is verified with Verus; `app/` is the
command-line program around it.

## Layout

- `src/text.rs`, `src/order.rs`: characters, splitting and joining, and the
  order of names.
- `src/names.rs`: module names (relative imports, external and built-in
  names, file extensions).
- `src/encoding.rs`: decoding sources (UTF-8 BOM, PEP 263 declarations).
- `src/declaration.rs`: rewriting a declared encoding to `utf-8` in the
  emitted sources.
- `src/sys_paths.rs`: which `sys.path` entries take part in resolution.
- `src/analyzer.rs`: the imports a module makes, from its reduced syntax.
- `src/resolver.rs`: module resolution over directories and ZIP archives.
- `src/model.rs`, `src/graph.rs`, `src/bundle.rs`: the bundle graph, its
  budget, and the state machine that grows it.
- `src/module_graph.rs`: module names of files, checks on the entry file.
- `src/tokens.rs`: Ruff's tokens of a source, with character positions.
- `src/tree_shaking.rs`, `src/unused_imports.rs`: removing unused imports
  with Ruff's linter, pass by pass, keeping imports marked `# bundle`.
- `src/layout.rs`: laying a module's source out as an indented block
  (lines that begin inside a string stay as they are), and finding its
  `from __future__` lines.
- `src/licenses.rs`, `src/codegen.rs`, `src/output.rs`: license headers,
  the generated script, and the end of a run.

The program reads files, runs Python interpreters to find `sys.path`, and
turns Ruff's syntax tree of each module into the plain values the analysis
reads; it hands what it observes to the library, which decides what to do
next. Ruff's linter and tokenizer are called from the library itself.

## The generated script

A lone entry module that nothing imports is emitted as it is. Otherwise the
script starts with the license headers and the hoisted `from __future__`
lines, then an import runtime under `if __name__ == "__main__":`, then one
readable `if __name__ == "<module>":` block per bundled module, and last the
entry module's block, which also runs as `__main__`. The runtime compiles
the script once and runs it with a module's name as `__name__` when that
module is imported. A module whose source declares a codec other than
UTF-8, ASCII or Latin-1 is left out and imported at run time.

## Entry point

The program in `app/` is what bundles a file: it reads files and runs the
interpreters, and hands what it observes to `bundle::BundleState`, which
decides each step, then calls `output::finish_bundle`.

## Dependencies

`get-size2` is not used by the code: it is pinned because the version of
`ruff_python_ast` used here does not build against later releases of it.
