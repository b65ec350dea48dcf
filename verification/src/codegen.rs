//! Generation of the bundled script: one `if __name__ == "<name>":` block
//! per bundled module, the import runtime that serves them, Python string
//! literals and newline normalization.
use vstd::prelude::*;
use crate::model::{ModuleData, ModuleMap};
use crate::layout::{block_body, block_body_exec, future_lines, lay_out};
use crate::text::{from_chars, push_all, push_str, replace_char, replace_chars, sviews, to_chars};

verus! {

broadcast use vstd::string::group_string_axioms;

/// The license headers that precede one module in the bundle.
#[derive(Debug)]
pub struct HeaderGroup {
    /// The module the headers belong to.
    pub module: String,
    /// The formatted headers, in order.
    pub headers: Vec<String>,
}

/// The start of the import runtime, up to the table of modules. The
/// runtime compiles the bundle once; importing a bundled module runs that
/// code with the module's name as `__name__`, so that only the module's own
/// block takes effect.
pub const RUNTIME_HEAD: &'static str = "if __name__ == \"__main__\":\n\tdef _setup():\n\t\timport importlib.abc\n\t\timport importlib.machinery\n\t\timport importlib.util\n\t\timport sys\n\n\t\t# The following runtime code is part of pybundler.\n\t\t# https://github.com/cputils/pybundler\n\t\t# SPDX-License-Identifier: CC0-1.0\n\n\t\twith open(__file__, encoding=\"utf-8\") as bundle_file:\n\t\t\tbundle_code = compile(bundle_file.read(), __file__, \"exec\", dont_inherit=True)\n\n\t\tmodules_info = {\n";

/// The loader and finder that follow the table of modules, and the end of
/// the runtime.
pub const RUNTIME_TAIL: &'static str = "\t\t}\n\n\t\tclass Loader(importlib.abc.Loader):\n\t\t\tdef exec_module(self, module):\n\t\t\t\texec(bundle_code, module.__dict__)\n\n\t\t\tdef get_filename(self, fullname):\n\t\t\t\treturn modules_info[fullname][0]\n\n\t\t\tdef is_package(self, fullname):\n\t\t\t\treturn modules_info[fullname][1]\n\n\t\tclass Finder(importlib.abc.MetaPathFinder):\n\t\t\tdef find_spec(self, fullname, path=None, target=None):\n\t\t\t\tinfo = modules_info.get(fullname)\n\t\t\t\tif info is None:\n\t\t\t\t\treturn None\n\t\t\t\tif path is not None:\n\t\t\t\t\tpackage_path = fullname.rpartition(\".\")[0].replace(\".\", \"/\")\n\t\t\t\t\tif package_path not in path:\n\t\t\t\t\t\treturn None\n\t\t\t\tif info[2]:\n\t\t\t\t\tspec = importlib.util.spec_from_loader(fullname, None, is_package=True)\n\t\t\t\t\tspec.submodule_search_locations.append(\n\t\t\t\t\t\tfullname.replace(\".\", \"/\")\n\t\t\t\t\t)\n\t\t\t\t\treturn spec\n\t\t\t\treturn importlib.util.spec_from_loader(fullname, loader, is_package=info[1])\n\n\t\tloader = Loader()\n\t\tfinder_index = next(\n\t\t\t(\n\t\t\t\tindex\n\t\t\t\tfor index, finder in enumerate(sys.meta_path)\n\t\t\t\tif finder is importlib.machinery.PathFinder\n\t\t\t),\n\t\t\tlen(sys.meta_path),\n\t\t)\n\t\tsys.meta_path.insert(finder_index, Finder())\n\n\t_setup()\n\tglobals().pop(\"_setup\", None)\n";

// ---------------------------------------------------------------------------
// Specifications
// ---------------------------------------------------------------------------

/// `char::is_control`: the Unicode general category `Cc`.
pub open spec fn is_control(c: char) -> bool {
    c <= '\u{1f}' || ('\u{7f}' <= c && c <= '\u{9f}')
}

/// A lower-case hexadecimal digit.
pub open spec fn hex_digit(d: nat) -> char {
    if d < 10 {
        ((d + 48) as u8) as char
    } else {
        ((d + 87) as u8) as char
    }
}

/// How one character is written inside a double-quoted Python literal.
pub open spec fn escape_char(c: char) -> Seq<char> {
    if c == '"' {
        seq!['\\', '"']
    } else if c == '\\' {
        seq!['\\', '\\']
    } else if c == '\n' {
        seq!['\\', 'n']
    } else if c == '\r' {
        seq!['\\', 'r']
    } else if c == '\t' {
        seq!['\\', 't']
    } else if c == '\u{8}' {
        seq!['\\', 'b']
    } else if c == '\u{c}' {
        seq!['\\', 'f']
    } else if is_control(c) {
        seq!['\\', 'x', hex_digit((c as u32 / 16) as nat), hex_digit((c as u32 % 16) as nat)]
    } else {
        seq![c]
    }
}

/// Every character escaped.
pub open spec fn escape_all(s: Seq<char>) -> Seq<char>
    decreases s.len(),
{
    if s.len() == 0 {
        Seq::<char>::empty()
    } else {
        escape_all(s.drop_last()) + escape_char(s.last())
    }
}

/// A double-quoted Python string literal with the value `s`.
pub open spec fn py_literal(s: Seq<char>) -> Seq<char> {
    seq!['"'] + escape_all(s) + seq!['"']
}

/// `s` with every `\r\n` and every other `\r` turned into `\n`.
pub open spec fn norm_newlines(s: Seq<char>) -> Seq<char>
    decreases s.len(),
{
    if s.len() == 0 {
        Seq::<char>::empty()
    } else if s[0] == '\r' {
        if s.len() > 1 && s[1] == '\n' {
            seq!['\n'] + norm_newlines(s.skip(2))
        } else {
            seq!['\n'] + norm_newlines(s.skip(1))
        }
    } else {
        seq![s[0]] + norm_newlines(s.skip(1))
    }
}

/// The value of a hexadecimal digit character, if it is one.
pub open spec fn hex_value(c: char) -> Option<nat> {
    if '0' <= c && c <= '9' {
        Some((c as u32 - 48) as nat)
    } else if 'a' <= c && c <= 'f' {
        Some((c as u32 - 87) as nat)
    } else {
        None
    }
}

/// What Python makes of the inside of a double-quoted string literal, for
/// the escapes `\"`, `\\`, `\n`, `\r`, `\t`, `\b`, `\f` and `\xHH`; none
/// for an unescaped quote or line break, a dangling backslash, or any other
/// escape.
pub open spec fn unescape(s: Seq<char>) -> Option<Seq<char>>
    decreases s.len(),
{
    if s.len() == 0 {
        Some(Seq::<char>::empty())
    } else if s[0] == '\\' {
        if s.len() < 2 {
            None
        } else {
            let e = s[1];
            let simple = if e == '"' {
                Some('"')
            } else if e == '\\' {
                Some('\\')
            } else if e == 'n' {
                Some('\n')
            } else if e == 'r' {
                Some('\r')
            } else if e == 't' {
                Some('\t')
            } else if e == 'b' {
                Some('\u{8}')
            } else if e == 'f' {
                Some('\u{c}')
            } else {
                None
            };
            match simple {
                Some(c) => match unescape(s.skip(2)) {
                    Some(rest) => Some(seq![c] + rest),
                    None => None,
                },
                None => if e == 'x' && s.len() >= 4 {
                    match (hex_value(s[2]), hex_value(s[3])) {
                        (Some(h), Some(l)) => match unescape(s.skip(4)) {
                            Some(rest) => Some(seq![((h * 16 + l) as u32) as char] + rest),
                            None => None,
                        },
                        _ => None,
                    }
                } else {
                    None
                },
            }
        }
    } else if s[0] == '"' || s[0] == '\n' {
        None
    } else {
        match unescape(s.skip(1)) {
            Some(rest) => Some(seq![s[0]] + rest),
            None => None,
        }
    }
}

/// The value of a double-quoted Python string literal, if it is one.
pub open spec fn literal_value(lit: Seq<char>) -> Option<Seq<char>> {
    if lit.len() >= 2 && lit[0] == '"' && lit[lit.len() - 1] == '"' {
        unescape(lit.subrange(1, lit.len() - 1))
    } else {
        None
    }
}

proof fn lemma_hex_digit(d: nat)
    requires
        d < 16,
    ensures
        hex_value(hex_digit(d)) == Some(d),
{
}

/// Reading one escaped character back gives the character.
proof fn lemma_unescape_char(c: char, t: Seq<char>)
    ensures
        unescape(escape_char(c) + t) == match unescape(t) {
            Some(u) => Some(seq![c] + u),
            None => None::<Seq<char>>,
        },
{
    let e = escape_char(c);
    let s = e + t;
    if c == '"' || c == '\\' || c == '\n' || c == '\r' || c == '\t' || c == '\u{8}' || c == '\u{c}' {
        assert(s.skip(2) =~= t);
    } else if is_control(c) {
        let v = c as u32;
        lemma_hex_digit((v / 16) as nat);
        lemma_hex_digit((v % 16) as nat);
        assert(s.skip(4) =~= t);
        assert(((v / 16) as nat * 16 + (v % 16) as nat) == v);
        assert((v as u32) as char == c);
    } else {
        assert(s.skip(1) =~= t);
    }
}

/// Reading escaped text back gives the text, followed by what the rest reads as.
proof fn lemma_unescape_all(s: Seq<char>, t: Seq<char>)
    ensures
        unescape(escape_all(s) + t) == match unescape(t) {
            Some(u) => Some(s + u),
            None => None::<Seq<char>>,
        },
    decreases s.len(),
{
    if s.len() == 0 {
        assert(escape_all(s) + t =~= t);
        match unescape(t) {
            Some(u) => assert(s + u =~= u),
            None => {},
        }
    } else {
        let init = s.drop_last();
        let last = s.last();
        assert(escape_all(s) + t =~= escape_all(init) + (escape_char(last) + t));
        lemma_unescape_all(init, escape_char(last) + t);
        lemma_unescape_char(last, t);
        match unescape(t) {
            Some(u) => assert(init + (seq![last] + u) =~= s + u),
            None => {},
        }
    }
}

/// The literal written for a string reads back as that string in Python.
pub proof fn lemma_literal_round_trip(s: Seq<char>)
    ensures
        literal_value(py_literal(s)) == Some(s),
{
    let lit = py_literal(s);
    assert(lit.subrange(1, lit.len() - 1) =~= escape_all(s) + Seq::<char>::empty());
    lemma_unescape_all(s, Seq::<char>::empty());
    assert(s + Seq::<char>::empty() =~= s);
}

/// An escaped character holds no control character.
proof fn lemma_escape_char_printable(c: char)
    ensures
        forall|k: int| 0 <= k < escape_char(c).len() ==> !is_control(#[trigger] escape_char(c)[k]),
{
    if is_control(c) && !(c == '"' || c == '\\' || c == '\n' || c == '\r' || c == '\t' || c == '\u{8}'
        || c == '\u{c}') {
        let v = c as u32;
        assert(v / 16 < 16 && v % 16 < 16);
    }
}

/// Escaped text holds no control character.
proof fn lemma_escape_all_printable(s: Seq<char>)
    ensures
        forall|k: int| 0 <= k < escape_all(s).len() ==> !is_control(#[trigger] escape_all(s)[k]),
    decreases s.len(),
{
    if s.len() > 0 {
        lemma_escape_all_printable(s.drop_last());
        lemma_escape_char_printable(s.last());
        let a = escape_all(s.drop_last());
        let b = escape_char(s.last());
        assert(escape_all(s) == a + b);
        assert forall|k: int| 0 <= k < escape_all(s).len() implies !is_control(#[trigger] escape_all(s)[k]) by {
            if k < a.len() {
                assert(escape_all(s)[k] == a[k]);
            } else {
                assert(escape_all(s)[k] == b[k - a.len()]);
            }
        }
    }
}

/// The literal written for a string is quoted and holds no raw line break
/// or other control character.
pub proof fn lemma_literal_printable(s: Seq<char>)
    ensures
        py_literal(s).len() >= 2,
        py_literal(s)[0] == '"',
        py_literal(s).last() == '"',
        forall|k: int| 0 <= k < py_literal(s).len() ==> !is_control(#[trigger] py_literal(s)[k]),
{
    lemma_escape_all_printable(s);
    let e = escape_all(s);
    let lit = py_literal(s);
    assert forall|k: int| 0 <= k < lit.len() implies !is_control(#[trigger] lit[k]) by {
        if 0 < k < lit.len() - 1 {
            assert(lit[k] == e[k - 1]);
        }
    }
}

/// Normalized text holds no carriage return.
pub proof fn lemma_normalized_has_no_cr(s: Seq<char>)
    ensures
        forall|i: int| 0 <= i < norm_newlines(s).len() ==> norm_newlines(s)[i] != '\r',
    decreases s.len(),
{
    if s.len() > 0 {
        let rest = if s[0] == '\r' && s.len() > 1 && s[1] == '\n' {
            s.skip(2)
        } else {
            s.skip(1)
        };
        lemma_normalized_has_no_cr(rest);
        let head = if s[0] == '\r' {
            seq!['\n']
        } else {
            seq![s[0]]
        };
        assert(norm_newlines(s) == head + norm_newlines(rest));
        assert forall|i: int| 0 <= i < norm_newlines(s).len() implies norm_newlines(s)[i] != '\r' by {
            if i > 0 {
                assert(norm_newlines(s)[i] == norm_newlines(rest)[i - 1]);
            }
        }
    }
}

/// Text without carriage returns is left as it is.
pub proof fn lemma_normalize_without_cr(s: Seq<char>)
    requires
        forall|i: int| 0 <= i < s.len() ==> s[i] != '\r',
    ensures
        norm_newlines(s) == s,
    decreases s.len(),
{
    if s.len() > 0 {
        lemma_normalize_without_cr(s.skip(1));
        assert(s =~= seq![s[0]] + s.skip(1));
    }
}

/// Normalizing newlines twice changes nothing more than once.
pub proof fn lemma_normalize_idempotent(s: Seq<char>)
    ensures
        norm_newlines(norm_newlines(s)) == norm_newlines(s),
{
    lemma_normalized_has_no_cr(s);
    lemma_normalize_without_cr(norm_newlines(s));
}

/// The source of a module as it is embedded: newlines normalized, and an
/// encoding declaration rewritten to declare UTF-8, the encoding of the bundle.
pub open spec fn module_text(m: ModuleData) -> Seq<char> {
    crate::declaration::with_utf8_declaration(norm_newlines(m.source@))
}

/// The file name a bundled module reports: its dotted name as a path,
/// ending in `/__init__.py` for a package and in `.py` otherwise.
pub open spec fn origin_of(m: ModuleData) -> Seq<char> {
    replace_char(m.name@, '.', '/') + if m.is_package {
        "/__init__.py"@
    } else {
        ".py"@
    }
}

/// The file name a bundled module reports is its dotted name as a path:
/// every `.` of the name becomes `/` and no other character changes, so the
/// origin holds no dot from the name, and `/__init__.py` follows for a
/// package (whose directory is then the path the runtime's finder checks
/// for its submodules), `.py` otherwise.
pub proof fn lemma_origin_is_path(m: ModuleData)
    ensures
        origin_of(m).len() == m.name@.len() + if m.is_package {
            12int
        } else {
            3int
        },
        forall|i: int|
            0 <= i < m.name@.len() ==> #[trigger] origin_of(m)[i] == if m.name@[i] == '.' {
                '/'
            } else {
                m.name@[i]
            },
        forall|i: int| 0 <= i < m.name@.len() ==> #[trigger] origin_of(m)[i] != '.',
        origin_of(m).skip(m.name@.len() as int) == if m.is_package {
            "/__init__.py"@
        } else {
            ".py"@
        },
{
    reveal_strlit("/__init__.py");
    reveal_strlit(".py");
    let n = m.name@;
    let p = replace_char(n, '.', '/');
    let o = origin_of(m);
    assert(p.len() == n.len());
    assert forall|i: int| 0 <= i < n.len() implies #[trigger] o[i] == if n[i] == '.' {
        '/'
    } else {
        n[i]
    } by {
        assert(o[i] == p[i]);
    }
    assert(o.skip(n.len() as int) =~= if m.is_package {
        "/__init__.py"@
    } else {
        ".py"@
    });
}

/// The pieces concatenated.
pub open spec fn concat(parts: Seq<Seq<char>>) -> Seq<char>
    decreases parts.len(),
{
    if parts.len() == 0 {
        Seq::<char>::empty()
    } else {
        concat(parts.drop_last()) + parts.last()
    }
}

/// The headers registered for a module (the first group with its name).
pub open spec fn headers_for(h: Seq<HeaderGroup>, name: Seq<char>) -> Seq<Seq<char>>
    decreases h.len(),
{
    if h.len() == 0 {
        Seq::<Seq<char>>::empty()
    } else if h[0].module@ == name {
        sviews(h[0].headers@)
    } else {
        headers_for(h.drop_first(), name)
    }
}

/// The license headers of all modules, in module order.
pub open spec fn license_text(mods: Seq<ModuleData>, h: Seq<HeaderGroup>) -> Seq<char>
    decreases mods.len(),
{
    if mods.len() == 0 {
        Seq::<char>::empty()
    } else {
        license_text(mods.drop_last(), h) + concat(headers_for(h, mods.last().name@))
    }
}

/// Python's spelling of a boolean.
pub open spec fn py_bool(b: bool) -> Seq<char> {
    if b {
        "True"@
    } else {
        "False"@
    }
}

/// One entry of the runtime's table of modules: name, origin (none for a
/// namespace package), whether it is a package, whether it is synthetic.
pub open spec fn table_line(m: ModuleData) -> Seq<char> {
    let origin = if m.synthetic {
        "None"@
    } else {
        py_literal(origin_of(m))
    };
    "\t\t\t"@ + py_literal(m.name@) + ": ("@ + origin + ", "@ + py_bool(m.is_package) + ", "@
        + py_bool(m.synthetic) + "),\n"@
}

/// The table entries of all modules, in order.
pub open spec fn table_lines(mods: Seq<ModuleData>) -> Seq<char>
    decreases mods.len(),
{
    if mods.len() == 0 {
        Seq::<char>::empty()
    } else {
        table_lines(mods.drop_last()) + table_line(mods.last())
    }
}

/// Text that ends with a line break, unless it is empty.
pub open spec fn ended(s: Seq<char>) -> Seq<char> {
    if s.len() > 0 && s.last() != '\n' {
        s.push('\n')
    } else {
        s
    }
}

/// The `from __future__ import` lines of all modules with a file, in module
/// order, hoisted to the top of the bundle.
pub open spec fn future_text(mods: Seq<ModuleData>) -> Seq<char>
    decreases mods.len(),
{
    if mods.len() == 0 {
        Seq::<char>::empty()
    } else {
        future_text(mods.drop_last()) + if mods.last().synthetic {
            Seq::<char>::empty()
        } else {
            ended(future_lines(module_text(mods.last())))
        }
    }
}

/// The block of a bundled module: `if __name__ == "<name>":` and its
/// source laid out below it (see `block_body`).
pub open spec fn module_block(m: ModuleData) -> Seq<char> {
    "if __name__ == "@ + py_literal(m.name@) + ":\n"@ + block_body(module_text(m))
}

/// The blocks of the modules with a file other than the entry, in order.
pub open spec fn module_blocks(mods: Seq<ModuleData>, entry_name: Seq<char>) -> Seq<char>
    decreases mods.len(),
{
    if mods.len() == 0 {
        Seq::<char>::empty()
    } else {
        module_blocks(mods.drop_last(), entry_name) + if mods.last().synthetic || mods.last().name@
            == entry_name {
            Seq::<char>::empty()
        } else {
            module_block(mods.last())
        }
    }
}

/// The block of the entry module, which runs when the bundle is the main
/// program and when the entry module is imported by its name.
pub open spec fn entry_block(entry: ModuleData) -> Seq<char> {
    "if __name__ == "@ + py_literal(entry.name@) + " or __name__ == \"__main__\":\n"@ + block_body(
        module_text(entry),
    )
}

/// The bundled script. A lone module that need not import itself is
/// emitted as is, with the license headers appended after a blank line.
/// Otherwise come the license headers, the hoisted `from __future__`
/// lines, the import runtime with its table of modules, one block per
/// bundled module with a file, and last the entry module's block.
pub open spec fn bundle_code(
    entry: ModuleData,
    mods: Seq<ModuleData>,
    h: Seq<HeaderGroup>,
    force_runtime: bool,
) -> Seq<char> {
    let lic = license_text(mods, h);
    if mods.len() == 1 && !force_runtime {
        let src = module_text(entry);
        if lic.len() == 0 {
            src
        } else {
            let ended = if src.len() > 0 && src.last() == '\n' {
                src
            } else {
                src.push('\n')
            };
            ended.push('\n') + lic
        }
    } else {
        lic + future_text(mods) + RUNTIME_HEAD@ + table_lines(mods) + RUNTIME_TAIL@ + module_blocks(
            mods,
            entry.name@,
        ) + entry_block(entry)
    }
}

/// Whether `p` occurs in `s` at offset `o`.
pub open spec fn occurs_at(s: Seq<char>, p: Seq<char>, o: int) -> bool {
    0 <= o && o + p.len() <= s.len() && s.subrange(o, o + p.len()) == p
}

proof fn lemma_occurs_self(p: Seq<char>)
    ensures
        occurs_at(p, p, 0),
{
    assert(p.subrange(0, p.len() as int) =~= p);
}

proof fn lemma_occurs_after(a: Seq<char>, s: Seq<char>, p: Seq<char>, o: int)
    requires
        occurs_at(s, p, o),
    ensures
        occurs_at(a + s, p, o + a.len()),
{
    assert((a + s).subrange(o + a.len(), o + a.len() + p.len()) =~= s.subrange(o, o + p.len()));
}

proof fn lemma_occurs_before(s: Seq<char>, b: Seq<char>, p: Seq<char>, o: int)
    requires
        occurs_at(s, p, o),
    ensures
        occurs_at(s + b, p, o),
{
    assert((s + b).subrange(o, o + p.len()) =~= s.subrange(o, o + p.len()));
}

proof fn lemma_blocks_have(mods: Seq<ModuleData>, en: Seq<char>, i: int)
    requires
        0 <= i < mods.len(),
        !mods[i].synthetic,
        mods[i].name@ != en,
    ensures
        exists|o: int| occurs_at(module_blocks(mods, en), module_block(mods[i]), o),
    decreases mods.len(),
{
    let init = mods.drop_last();
    let b = module_block(mods[i]);
    if i == mods.len() - 1 {
        assert(module_blocks(mods, en) == module_blocks(init, en) + b);
        lemma_occurs_self(b);
        lemma_occurs_after(module_blocks(init, en), b, b, 0);
    } else {
        lemma_blocks_have(init, en, i);
        let o = choose|o: int| occurs_at(module_blocks(init, en), module_block(init[i]), o);
        let last = if mods.last().synthetic || mods.last().name@ == en {
            Seq::<char>::empty()
        } else {
            module_block(mods.last())
        };
        assert(module_blocks(mods, en) == module_blocks(init, en) + last);
        lemma_occurs_before(module_blocks(init, en), last, b, o);
    }
}

/// A lone module that need not import itself opens the bundle with its
/// (newline-normalized) source.
pub proof fn lemma_lone_module_bundle(entry: ModuleData, mods: Seq<ModuleData>, h: Seq<HeaderGroup>)
    requires
        mods.len() == 1,
    ensures
        occurs_at(bundle_code(entry, mods, h, false), module_text(entry), 0),
{
    let src = module_text(entry);
    let lic = license_text(mods, h);
    lemma_occurs_self(src);
    if lic.len() > 0 {
        let ended = if src.len() > 0 && src.last() == '\n' {
            src
        } else {
            src.push('\n')
        };
        assert(occurs_at(ended, src, 0)) by {
            assert(ended.subrange(0, src.len() as int) =~= src);
        }
        lemma_occurs_before(ended, seq!['\n'], src, 0);
        assert(ended.push('\n') == ended + seq!['\n']);
        lemma_occurs_before(ended.push('\n'), lic, src, 0);
    }
}

/// Otherwise the bundle holds, for every module with a file other than
/// the entry, a block `if __name__ == "<name>":` whose literal reads back as
/// the module's name, followed by the module's laid-out source; and it
/// ends with the entry module's block.
pub proof fn lemma_bundle_embeds_sources(
    entry: ModuleData,
    mods: Seq<ModuleData>,
    h: Seq<HeaderGroup>,
    force_runtime: bool,
    i: int,
)
    requires
        0 <= i < mods.len(),
        !(mods.len() == 1 && !force_runtime),
        !mods[i].synthetic,
        mods[i].name@ != entry.name@,
    ensures
        exists|o: int| occurs_at(bundle_code(entry, mods, h, force_runtime), module_block(mods[i]), o),
        literal_value(py_literal(mods[i].name@)) == Some(mods[i].name@),
        ({
            let code = bundle_code(entry, mods, h, force_runtime);
            occurs_at(code, entry_block(entry), code.len() - entry_block(entry).len())
        }),
{
    lemma_literal_round_trip(mods[i].name@);
    let blocks = module_blocks(mods, entry.name@);
    lemma_blocks_have(mods, entry.name@, i);
    let o = choose|o: int| occurs_at(blocks, module_block(mods[i]), o);
    let head = license_text(mods, h) + future_text(mods) + RUNTIME_HEAD@ + table_lines(mods)
        + RUNTIME_TAIL@;
    let eb = entry_block(entry);
    assert(bundle_code(entry, mods, h, force_runtime) == head + blocks + eb);
    lemma_occurs_after(head, blocks, module_block(mods[i]), o);
    lemma_occurs_before(head + blocks, eb, module_block(mods[i]), o + head.len());
    lemma_occurs_self(eb);
    lemma_occurs_after(head + blocks, eb, eb, 0);
}

// ---------------------------------------------------------------------------
// Executable functions
// ---------------------------------------------------------------------------

fn hex_char(d: u32) -> (r: char)
    requires
        d < 16,
    ensures
        r == hex_digit(d as nat),
{
    if d < 10 {
        ((d + 48) as u8) as char
    } else {
        ((d + 87) as u8) as char
    }
}

fn push_escaped(out: &mut Vec<char>, c: char)
    ensures
        final(out)@ == old(out)@ + escape_char(c),
{
    let ghost start = out@;
    if c == '"' {
        out.push('\\');
        out.push('"');
    } else if c == '\\' {
        out.push('\\');
        out.push('\\');
    } else if c == '\n' {
        out.push('\\');
        out.push('n');
    } else if c == '\r' {
        out.push('\\');
        out.push('r');
    } else if c == '\t' {
        out.push('\\');
        out.push('t');
    } else if c == '\u{8}' {
        out.push('\\');
        out.push('b');
    } else if c == '\u{c}' {
        out.push('\\');
        out.push('f');
    } else if c <= '\u{1f}' || ('\u{7f}' <= c && c <= '\u{9f}') {
        let v = c as u32;
        out.push('\\');
        out.push('x');
        out.push(hex_char(v / 16));
        out.push(hex_char(v % 16));
    } else {
        out.push(c);
    }
    assert(out@ =~= start + escape_char(c));
}

/// Writes `value` as a double-quoted Python string literal whose value is
/// `value`: quotes, backslashes and control characters are escaped.
pub fn python_string_literal(value: &str) -> (r: String)
    ensures
        r@ == py_literal(value@),
        r@.len() >= 2 && r@[0] == '"' && r@.last() == '"',
        forall|k: int| 0 <= k < r@.len() ==> !is_control(#[trigger] r@[k]),
{
    proof {
        lemma_literal_printable(value@);
    }
    let chars = to_chars(value);
    let mut out: Vec<char> = Vec::new();
    out.push('"');
    let mut i: usize = 0;
    while i < chars.len()
        invariant
            i <= chars@.len(),
            out@ == seq!['"'] + escape_all(chars@.take(i as int)),
        decreases chars@.len() - i,
    {
        assert(chars@.take(i + 1).drop_last() =~= chars@.take(i as int));
        push_escaped(&mut out, chars[i]);
        i += 1;
        assert(out@ =~= seq!['"'] + escape_all(chars@.take(i as int)));
    }
    assert(chars@.take(chars@.len() as int) =~= chars@);
    out.push('"');
    assert(out@ =~= py_literal(value@));
    from_chars(out.as_slice())
}

/// Turns every `\r\n` and every remaining `\r` into `\n`.
pub fn normalize_python_newlines(value: &str) -> (r: String)
    ensures
        r@ == norm_newlines(value@),
{
    let s = to_chars(value);
    let mut out: Vec<char> = Vec::new();
    let mut i: usize = 0;
    assert(s@.skip(0) =~= s@);
    while i < s.len()
        invariant
            i <= s@.len(),
            out@ + norm_newlines(s@.skip(i as int)) == norm_newlines(s@),
        decreases s@.len() - i,
    {
        let ghost t = s@.skip(i as int);
        if s[i] == '\r' {
            out.push('\n');
            if i + 1 < s.len() && s[i + 1] == '\n' {
                assert(t.skip(2) =~= s@.skip(i + 2));
                i += 2;
            } else {
                assert(t.skip(1) =~= s@.skip(i + 1));
                i += 1;
            }
        } else {
            out.push(s[i]);
            assert(t.skip(1) =~= s@.skip(i + 1));
            i += 1;
        }
        assert(out@ + norm_newlines(s@.skip(i as int)) =~= norm_newlines(s@));
    }
    assert(s@.skip(i as int) =~= Seq::<char>::empty());
    assert(out@ =~= norm_newlines(s@));
    from_chars(out.as_slice())
}

/// The source of a module as it is embedded, with newlines normalized and
/// its encoding declaration, if any, naming UTF-8.
pub fn module_source(module: &ModuleData) -> (r: String)
    ensures
        r@ == module_text(*module),
{
    let normalized = normalize_python_newlines(module.source.as_str());
    crate::declaration::normalize_encoding_declaration(normalized.as_str())
}

/// The file name a bundled module reports (`pkg/mod.py`, `pkg/__init__.py`).
pub fn module_origin(module: &ModuleData) -> (r: String)
    ensures
        r@ == origin_of(*module),
{
    let name = to_chars(module.name.as_str());
    let mut path = replace_chars(name.as_slice(), '.', '/');
    if module.is_package {
        push_str(&mut path, "/__init__.py");
    } else {
        push_str(&mut path, ".py");
    }
    from_chars(path.as_slice())
}

fn push_headers_for(out: &mut Vec<char>, h: &[HeaderGroup], name: &[char])
    ensures
        final(out)@ == old(out)@ + concat(headers_for(h@, name@)),
{
    let mut g: usize = 0;
    assert(h@.skip(0) =~= h@);
    while g < h.len()
        invariant
            g <= h@.len(),
            headers_for(h@, name@) == headers_for(h@.skip(g as int), name@),
            out@ == old(out)@,
        decreases h@.len() - g,
    {
        let m = to_chars(h[g].module.as_str());
        if crate::text::chars_eq(m.as_slice(), name) {
            let hs = &h[g].headers;
            assert(headers_for(h@.skip(g as int), name@) == sviews(hs@));
            let mut k: usize = 0;
            let ghost base = out@;
            while k < hs.len()
                invariant
                    k <= hs@.len(),
                    out@ == base + concat(sviews(hs@).take(k as int)),
                decreases hs@.len() - k,
            {
                assert(sviews(hs@).take(k + 1).drop_last() =~= sviews(hs@).take(k as int));
                push_str(out, hs[k].as_str());
                k += 1;
                assert(out@ =~= base + concat(sviews(hs@).take(k as int)));
            }
            assert(sviews(hs@).take(hs@.len() as int) =~= sviews(hs@));
            return;
        }
        assert(h@.skip(g as int).drop_first() =~= h@.skip(g + 1));
        g += 1;
    }
    assert(h@.skip(g as int) =~= Seq::<HeaderGroup>::empty());
    assert(out@ =~= old(out)@ + concat(headers_for(h@, name@)));
}

fn push_table_line(out: &mut Vec<char>, m: &ModuleData)
    ensures
        final(out)@ == old(out)@ + table_line(*m),
{
    let ghost start = out@;
    push_str(out, "\t\t\t");
    let lit = python_string_literal(m.name.as_str());
    push_str(out, lit.as_str());
    push_str(out, ": (");
    if m.synthetic {
        push_str(out, "None");
    } else {
        let o = module_origin(m);
        let s = python_string_literal(o.as_str());
        push_str(out, s.as_str());
    }
    push_str(out, ", ");
    if m.is_package {
        push_str(out, "True");
    } else {
        push_str(out, "False");
    }
    push_str(out, ", ");
    if m.synthetic {
        push_str(out, "True");
    } else {
        push_str(out, "False");
    }
    push_str(out, "),\n");
    assert(out@ =~= start + table_line(*m));
}

/// Appends the hoisted `from __future__` lines of a module.
fn push_future_lines(out: &mut Vec<char>, m: &ModuleData)
    requires
        !m.synthetic,
    ensures
        final(out)@ == old(out)@ + ended(future_lines(module_text(*m))),
{
    let text = to_chars(module_source(m).as_str());
    let (mut futs, _) = lay_out(text.as_slice());
    if futs.len() > 0 && futs[futs.len() - 1] != '\n' {
        futs.push('\n');
    }
    push_all(out, futs.as_slice());
}

/// Appends the laid-out source of a module (see `block_body`).
fn push_block_body(out: &mut Vec<char>, m: &ModuleData)
    ensures
        final(out)@ == old(out)@ + block_body(module_text(*m)),
{
    let text = to_chars(module_source(m).as_str());
    let (_, body) = lay_out(text.as_slice());
    let b = block_body_exec(body);
    push_all(out, b.as_slice());
}

/// Generates the bundled script for the modules of `modules` (in name
/// order) with `entry` as the program that runs.
///
/// When the entry module is the only one and nothing imports it, its
/// source is emitted unchanged (license headers appended); otherwise each
/// module stands in a block of its own, served by an import runtime.
pub fn generate_bundle_code(
    entry: &ModuleData,
    modules: &ModuleMap,
    license_headers: &[HeaderGroup],
    force_runtime: bool,
) -> (r: String)
    ensures
        r@ == bundle_code(*entry, modules.modules(), license_headers@, force_runtime),
{
    let mods = modules.entries();
    let mut lic: Vec<char> = Vec::new();
    let mut i: usize = 0;
    while i < mods.len()
        invariant
            i <= mods@.len(),
            lic@ == license_text(mods@.take(i as int), license_headers@),
        decreases mods@.len() - i,
    {
        assert(mods@.take(i + 1).drop_last() =~= mods@.take(i as int));
        let name = to_chars(mods[i].name.as_str());
        push_headers_for(&mut lic, license_headers, name.as_slice());
        i += 1;
    }
    assert(mods@.take(mods@.len() as int) =~= mods@);
    if mods.len() == 1 && !force_runtime {
        let src = module_source(entry);
        let mut out = to_chars(src.as_str());
        if lic.len() != 0 {
            if !(out.len() > 0 && out[out.len() - 1] == '\n') {
                out.push('\n');
            }
            out.push('\n');
            push_all(&mut out, lic.as_slice());
        }
        return from_chars(out.as_slice());
    }
    let mut out = lic;
    let ghost base0 = out@;
    let mut f: usize = 0;
    while f < mods.len()
        invariant
            f <= mods@.len(),
            out@ == base0 + future_text(mods@.take(f as int)),
        decreases mods@.len() - f,
    {
        assert(mods@.take(f + 1).drop_last() =~= mods@.take(f as int));
        if !mods[f].synthetic {
            push_future_lines(&mut out, &mods[f]);
        }
        f += 1;
        assert(out@ =~= base0 + future_text(mods@.take(f as int)));
    }
    push_str(&mut out, RUNTIME_HEAD);
    let mut k: usize = 0;
    let ghost base = out@;
    while k < mods.len()
        invariant
            k <= mods@.len(),
            out@ == base + table_lines(mods@.take(k as int)),
        decreases mods@.len() - k,
    {
        assert(mods@.take(k + 1).drop_last() =~= mods@.take(k as int));
        push_table_line(&mut out, &mods[k]);
        k += 1;
        assert(out@ =~= base + table_lines(mods@.take(k as int)));
    }
    push_str(&mut out, RUNTIME_TAIL);
    let entry_name = to_chars(entry.name.as_str());
    let mut j: usize = 0;
    let ghost base2 = out@;
    while j < mods.len()
        invariant
            j <= mods@.len(),
            entry_name@ == entry.name@,
            out@ == base2 + module_blocks(mods@.take(j as int), entry.name@),
        decreases mods@.len() - j,
    {
        assert(mods@.take(j + 1).drop_last() =~= mods@.take(j as int));
        let m = &mods[j];
        let nm = to_chars(m.name.as_str());
        if !m.synthetic && !crate::text::chars_eq(nm.as_slice(), entry_name.as_slice()) {
            let ghost before = out@;
            push_str(&mut out, "if __name__ == ");
            let lit = python_string_literal(m.name.as_str());
            push_str(&mut out, lit.as_str());
            push_str(&mut out, ":\n");
            push_block_body(&mut out, m);
            assert(out@ =~= before + module_block(*m));
        }
        j += 1;
        assert(out@ =~= base2 + module_blocks(mods@.take(j as int), entry.name@));
    }
    let ghost before_entry = out@;
    push_str(&mut out, "if __name__ == ");
    let e = python_string_literal(entry.name.as_str());
    push_str(&mut out, e.as_str());
    push_str(&mut out, " or __name__ == \"__main__\":\n");
    push_block_body(&mut out, entry);
    assert(out@ =~= before_entry + entry_block(*entry));
    from_chars(out.as_slice())
}

} // verus!
