//! What a module imports. The syntax tree is reduced to the few forms the
//! analysis reads (imports, calls, top-level assignments, comments); this
//! module evaluates constant strings, tracks aliases of `importlib`, reads
//! `# bundle` / `# no-bundle` directives and turns every import statement
//! and static `__import__` / `import_module` call into import requests.
use vstd::prelude::*;
use crate::model::{ImportRequest, ModuleAnalysis};
use crate::names::{package_name_of, relative_name_with_package, module_package_name,
    resolve_relative_name_with_package_arg};
use crate::text::{chars_eq, chars_eq_str, first_piece, first_piece_chars, from_chars, push_all,
    push_str, string_of, strings_contain, sviews, to_chars, trim, trim_chars, trim_str, decimal,
    decimal_chars};

verus! {

broadcast use vstd::string::group_string_axioms;

/// An expression, reduced to what constant evaluation reads.
#[derive(Debug)]
pub enum PyExpr {
    /// A string literal (implicitly concatenated parts joined).
    Str(String),
    /// An integer literal, when it fits an `i32`.
    Int(Option<i32>),
    /// A name.
    Name(String),
    /// `value.attr`.
    Attribute(Box<PyExpr>, String),
    /// `left + right`.
    Add(Box<PyExpr>, Box<PyExpr>),
    /// A list display.
    List(Vec<PyExpr>),
    /// A tuple display.
    Tuple(Vec<PyExpr>),
    /// Any other expression.
    Other,
}

/// One name of an import statement, `name` or `name as asname`.
#[derive(Debug)]
pub struct AliasInfo {
    /// The imported name as written.
    pub name: String,
    /// The name it is bound to, when given.
    pub asname: Option<String>,
}

/// `import a, b.c as d`.
#[derive(Debug)]
pub struct ImportInfo {
    /// The imported names.
    pub names: Vec<AliasInfo>,
}

/// `from <dots><module> import a, b as c`.
#[derive(Debug)]
pub struct ImportFromInfo {
    /// The module after the dots, when written.
    pub module: Option<String>,
    /// The number of leading dots.
    pub level: u32,
    /// The imported names.
    pub names: Vec<AliasInfo>,
}

/// A keyword argument of a call; `arg` is absent for `**kwargs`.
#[derive(Debug)]
pub struct KeywordInfo {
    /// The keyword.
    pub arg: Option<String>,
    /// The argument.
    pub value: PyExpr,
}

/// A call.
#[derive(Debug)]
pub struct CallInfo {
    /// The called expression.
    pub func: PyExpr,
    /// The positional arguments.
    pub args: Vec<PyExpr>,
    /// The keyword arguments, in order.
    pub keywords: Vec<KeywordInfo>,
}

/// An import statement or call met in a walk of the module, with its
/// zero-based line.
#[derive(Debug)]
pub enum SyntaxEvent {
    /// `import ...`.
    Import(usize, ImportInfo),
    /// `from ... import ...`.
    ImportFrom(usize, ImportFromInfo),
    /// A call expression.
    Call(usize, CallInfo),
}

/// A top-level assignment `t1 = t2 = ... = value`.
#[derive(Debug)]
pub struct AssignInfo {
    /// The targets.
    pub targets: Vec<PyExpr>,
    /// The assigned value.
    pub value: PyExpr,
}

/// A comment with its zero-based line and the text before it on that line.
#[derive(Debug)]
pub struct CommentInfo {
    /// The line.
    pub line: usize,
    /// The comment, starting with `#`.
    pub text: String,
    /// What precedes the comment on its line.
    pub leading: String,
}

/// What the analysis reads of a module's syntax.
#[derive(Debug)]
pub struct ModuleSyntax {
    /// The top-level assignments, in order.
    pub assignments: Vec<AssignInfo>,
    /// The import statements and calls, in a pre-order walk of the module.
    pub events: Vec<SyntaxEvent>,
    /// The comments, in order.
    pub comments: Vec<CommentInfo>,
}

/// The constants known while analyzing a module: its name, package and
/// file, and the top-level names bound to constant strings and integers.
/// Each binding list records assignments in order; the last one for a
/// name decides (`None` when the value was not constant).
#[derive(Debug)]
pub struct EvalContext {
    /// The module's name.
    pub module_name: String,
    /// The module's package.
    pub package_name: String,
    /// The module's file.
    pub file_path: String,
    /// String bindings, in assignment order.
    pub string_constants: Vec<(String, Option<String>)>,
    /// Integer bindings, in assignment order.
    pub int_constants: Vec<(String, Option<i32>)>,
}

// ---------------------------------------------------------------------------
// Constant evaluation
// ---------------------------------------------------------------------------

/// String bindings as text.
pub type StrBindings = Seq<(Seq<char>, Option<Seq<char>>)>;

/// Integer bindings as text.
pub type IntBindings = Seq<(Seq<char>, Option<i32>)>;

/// An evaluation context as text: module, package, file, string
/// bindings, integer bindings.
pub type CtxView = (Seq<char>, Seq<char>, Seq<char>, StrBindings, IntBindings);

/// The view of one string binding.
pub open spec fn str_binding(b: (String, Option<String>)) -> (Seq<char>, Option<Seq<char>>) {
    (
        b.0@,
        match b.1 {
            Some(v) => Some(v@),
            None => None,
        },
    )
}

/// The view of one integer binding.
pub open spec fn int_binding(b: (String, Option<i32>)) -> (Seq<char>, Option<i32>) {
    (b.0@, b.1)
}

/// The view of an evaluation context.
pub open spec fn ctx_view(c: EvalContext) -> CtxView {
    (
        c.module_name@,
        c.package_name@,
        c.file_path@,
        c.string_constants@.map_values(|b: (String, Option<String>)| str_binding(b)),
        c.int_constants@.map_values(|b: (String, Option<i32>)| int_binding(b)),
    )
}

/// The last string binding of `name`: `None` when never bound,
/// `Some(None)` when its last value was not a constant string.
pub open spec fn lookup_str(b: StrBindings, name: Seq<char>) -> Option<Option<Seq<char>>>
    decreases b.len(),
{
    if b.len() == 0 {
        None
    } else if b.last().0 == name {
        Some(b.last().1)
    } else {
        lookup_str(b.drop_last(), name)
    }
}

/// The last integer binding of `name`.
pub open spec fn lookup_int(b: IntBindings, name: Seq<char>) -> Option<Option<i32>>
    decreases b.len(),
{
    if b.len() == 0 {
        None
    } else if b.last().0 == name {
        Some(b.last().1)
    } else {
        lookup_int(b.drop_last(), name)
    }
}

/// The constant string an expression evaluates to: string literals, `+`
/// of constant strings, names bound to constant strings, `__name__`,
/// `__package__`, `__file__`, `__spec__.name` and `__spec__.parent`.
pub open spec fn eval_str(e: PyExpr, ctx: CtxView) -> Option<Seq<char>>
    decreases e,
{
    match e {
        PyExpr::Str(s) => Some(s@),
        PyExpr::Add(l, r) => match (eval_str(*l, ctx), eval_str(*r, ctx)) {
            (Some(a), Some(b)) => Some(a + b),
            _ => None,
        },
        PyExpr::Name(id) => match lookup_str(ctx.3, id@) {
            Some(Some(v)) => Some(v),
            _ => if id@ == "__name__"@ {
                Some(ctx.0)
            } else if id@ == "__package__"@ {
                Some(ctx.1)
            } else if id@ == "__file__"@ {
                Some(ctx.2)
            } else {
                None
            },
        },
        PyExpr::Attribute(v, attr) => match *v {
            PyExpr::Name(base) => if base@ == "__spec__"@ {
                if attr@ == "name"@ {
                    Some(ctx.0)
                } else if attr@ == "parent"@ {
                    Some(ctx.1)
                } else {
                    None
                }
            } else {
                None
            },
            _ => None,
        },
        _ => None,
    }
}

/// The constant integer an expression evaluates to: an integer literal
/// that fits an `i32`, or a name bound to one.
pub open spec fn eval_int(e: PyExpr, ctx: CtxView) -> Option<i32> {
    match e {
        PyExpr::Int(v) => v,
        PyExpr::Name(id) => match lookup_int(ctx.4, id@) {
            Some(v) => v,
            None => None,
        },
        _ => None,
    }
}

fn lookup_string_constant(b: &[(String, Option<String>)], name: &[char]) -> (r: Option<
    Option<String>,
>)
    ensures
        match r {
            None => lookup_str(b@.map_values(|x: (String, Option<String>)| str_binding(x)), name@) is None,
            Some(None) => lookup_str(b@.map_values(|x: (String, Option<String>)| str_binding(x)), name@) == Some(None::<Seq<char>>),
            Some(Some(v)) => lookup_str(b@.map_values(|x: (String, Option<String>)| str_binding(x)), name@) == Some(Some(v@)),
        },
{
    let ghost bv = b@.map_values(|x: (String, Option<String>)| str_binding(x));
    let mut k = b.len();
    assert(bv.take(k as int) =~= bv);
    while k > 0
        invariant
            k <= b@.len(),
            bv == b@.map_values(|x: (String, Option<String>)| str_binding(x)),
            lookup_str(bv, name@) == lookup_str(bv.take(k as int), name@),
        decreases k,
    {
        assert(bv.take(k as int).drop_last() =~= bv.take(k - 1));
        assert(bv.take(k as int).last() == str_binding(b@[k - 1]));
        let key = to_chars(b[k - 1].0.as_str());
        if chars_eq(key.as_slice(), name) {
            return match &b[k - 1].1 {
                Some(v) => Some(Some(v.clone())),
                None => Some(None),
            };
        }
        k -= 1;
    }
    None
}

fn lookup_int_constant(b: &[(String, Option<i32>)], name: &[char]) -> (r: Option<Option<i32>>)
    ensures
        r == lookup_int(b@.map_values(|x: (String, Option<i32>)| int_binding(x)), name@),
{
    let ghost bv = b@.map_values(|x: (String, Option<i32>)| int_binding(x));
    let mut k = b.len();
    assert(bv.take(k as int) =~= bv);
    while k > 0
        invariant
            k <= b@.len(),
            bv == b@.map_values(|x: (String, Option<i32>)| int_binding(x)),
            lookup_int(bv, name@) == lookup_int(bv.take(k as int), name@),
        decreases k,
    {
        assert(bv.take(k as int).drop_last() =~= bv.take(k - 1));
        assert(bv.take(k as int).last() == int_binding(b@[k - 1]));
        let key = to_chars(b[k - 1].0.as_str());
        if chars_eq(key.as_slice(), name) {
            return Some(b[k - 1].1);
        }
        k -= 1;
    }
    None
}

/// The constant string an expression evaluates to, if any.
pub fn eval_string_expr(node: &PyExpr, ctx: &EvalContext) -> (r: Option<String>)
    ensures
        match r {
            Some(s) => eval_str(*node, ctx_view(*ctx)) == Some(s@),
            None => eval_str(*node, ctx_view(*ctx)) is None,
        },
    decreases node,
{
    match node {
        PyExpr::Str(s) => Some(s.clone()),
        PyExpr::Add(l, r) => {
            let a = eval_string_expr(l, ctx)?;
            let b = eval_string_expr(r, ctx)?;
            let mut out = to_chars(a.as_str());
            push_str(&mut out, b.as_str());
            Some(from_chars(out.as_slice()))
        },
        PyExpr::Name(id) => {
            let name = to_chars(id.as_str());
            match lookup_string_constant(ctx.string_constants.as_slice(), name.as_slice()) {
                Some(Some(v)) => Some(v),
                _ => {
                    if chars_eq_str(name.as_slice(), "__name__") {
                        Some(ctx.module_name.clone())
                    } else if chars_eq_str(name.as_slice(), "__package__") {
                        Some(ctx.package_name.clone())
                    } else if chars_eq_str(name.as_slice(), "__file__") {
                        Some(ctx.file_path.clone())
                    } else {
                        None
                    }
                },
            }
        },
        PyExpr::Attribute(v, attr) => {
            match &**v {
                PyExpr::Name(base) => {
                    let b = to_chars(base.as_str());
                    if !chars_eq_str(b.as_slice(), "__spec__") {
                        return None;
                    }
                    let a = to_chars(attr.as_str());
                    if chars_eq_str(a.as_slice(), "name") {
                        Some(ctx.module_name.clone())
                    } else if chars_eq_str(a.as_slice(), "parent") {
                        Some(ctx.package_name.clone())
                    } else {
                        None
                    }
                },
                _ => None,
            }
        },
        _ => None,
    }
}

/// The constant integer an expression evaluates to, if any.
pub fn eval_int_expr(node: &PyExpr, ctx: &EvalContext) -> (r: Option<i32>)
    ensures
        r == eval_int(*node, ctx_view(*ctx)),
{
    match node {
        PyExpr::Int(v) => *v,
        PyExpr::Name(id) => {
            let name = to_chars(id.as_str());
            match lookup_int_constant(ctx.int_constants.as_slice(), name.as_slice()) {
                Some(v) => v,
                None => None,
            }
        },
        _ => None,
    }
}

// ---------------------------------------------------------------------------
// Top-level constants and `__all__`
// ---------------------------------------------------------------------------

/// The constant strings of a list or tuple display whose elements all
/// evaluate to constant strings.
pub open spec fn static_names(e: PyExpr, ctx: CtxView) -> Option<Seq<Seq<char>>> {
    match e {
        PyExpr::List(es) => elems_str(es@, ctx),
        PyExpr::Tuple(es) => elems_str(es@, ctx),
        _ => None,
    }
}

/// The constant strings of all elements, when each has one.
pub open spec fn elems_str(es: Seq<PyExpr>, ctx: CtxView) -> Option<Seq<Seq<char>>>
    decreases es.len(),
{
    if es.len() == 0 {
        Some(Seq::<Seq<char>>::empty())
    } else {
        match (elems_str(es.drop_last(), ctx), eval_str(es.last(), ctx)) {
            (Some(a), Some(b)) => Some(a.push(b)),
            _ => None,
        }
    }
}

/// The effect of assigning `value` to one target: a name target records
/// the value's constant string and integer (or their absence), and a
/// `__all__` target sets the declared names (empty when not static).
pub open spec fn target_step(st: (CtxView, Seq<Seq<char>>), t: PyExpr, value: PyExpr) -> (
    CtxView,
    Seq<Seq<char>>,
) {
    let ctx = st.0;
    match t {
        PyExpr::Name(id) => {
            let all = if id@ == "__all__"@ {
                match static_names(value, ctx) {
                    Some(ns) => ns,
                    None => Seq::<Seq<char>>::empty(),
                }
            } else {
                st.1
            };
            let strs = ctx.3.push((id@, eval_str(value, ctx)));
            let ints = ctx.4.push((id@, eval_int(value, ctx)));
            ((ctx.0, ctx.1, ctx.2, strs, ints), all)
        },
        _ => st,
    }
}

/// The effect of assigning `value` to each target in turn.
pub open spec fn targets_step(st: (CtxView, Seq<Seq<char>>), ts: Seq<PyExpr>, value: PyExpr) -> (
    CtxView,
    Seq<Seq<char>>,
)
    decreases ts.len(),
{
    if ts.len() == 0 {
        st
    } else {
        target_step(targets_step(st, ts.drop_last(), value), ts.last(), value)
    }
}

/// The effect of the top-level assignments, in order.
pub open spec fn assigns_step(st: (CtxView, Seq<Seq<char>>), asg: Seq<AssignInfo>) -> (
    CtxView,
    Seq<Seq<char>>,
)
    decreases asg.len(),
{
    if asg.len() == 0 {
        st
    } else {
        let prev = assigns_step(st, asg.drop_last());
        targets_step(prev, asg.last().targets@, asg.last().value)
    }
}

fn eval_static_names(value: &PyExpr, ctx: &EvalContext) -> (r: Option<Vec<String>>)
    ensures
        match r {
            Some(v) => static_names(*value, ctx_view(*ctx)) == Some(sviews(v@)),
            None => static_names(*value, ctx_view(*ctx)) is None,
        },
{
    let es = match value {
        PyExpr::List(es) => es,
        PyExpr::Tuple(es) => es,
        _ => {
            return None;
        },
    };
    let mut out: Vec<String> = Vec::new();
    let mut i: usize = 0;
    assert(static_names(*value, ctx_view(*ctx)) == elems_str(es@, ctx_view(*ctx)));
    assert(sviews(out@) =~= Seq::<Seq<char>>::empty());
    assert(es@.take(0) =~= Seq::<PyExpr>::empty());
    while i < es.len()
        invariant
            i <= es@.len(),
            static_names(*value, ctx_view(*ctx)) == elems_str(es@, ctx_view(*ctx)),
            elems_str(es@.take(i as int), ctx_view(*ctx)) == Some(sviews(out@)),
        decreases es@.len() - i,
    {
        assert(es@.take(i + 1).drop_last() =~= es@.take(i as int));
        assert(es@.take(i + 1).last() == es@[i as int]);
        match eval_string_expr(&es[i], ctx) {
            Some(v) => {
                let ghost before = out@;
                out.push(v);
                assert(sviews(out@) =~= sviews(before).push(out@.last()@));
            },
            None => {
                proof {
                    lemma_elems_none(es@, i as int, ctx_view(*ctx));
                }
                return None;
            },
        }
        i += 1;
    }
    assert(es@.take(es@.len() as int) =~= es@);
    Some(out)
}

proof fn lemma_elems_none(es: Seq<PyExpr>, i: int, ctx: CtxView)
    requires
        0 <= i < es.len(),
        eval_str(es[i], ctx) is None,
    ensures
        elems_str(es, ctx) is None,
    decreases es.len(),
{
    if i < es.len() - 1 {
        lemma_elems_none(es.drop_last(), i, ctx);
    }
}

/// Records the constant strings and integers bound by top-level
/// assignments, in order, and returns the names a static `__all__`
/// declares (the last assignment to `__all__` decides; empty when it is
/// not a list or tuple of constant strings).
pub fn collect_top_level_constants(body: &[AssignInfo], ctx: &mut EvalContext) -> (r: Vec<String>)
    ensures
        (ctx_view(*final(ctx)), sviews(r@)) == assigns_step(
            (ctx_view(*old(ctx)), Seq::<Seq<char>>::empty()),
            body@,
        ),
{
    let mut all: Vec<String> = Vec::new();
    let ghost st0 = (ctx_view(*ctx), Seq::<Seq<char>>::empty());
    assert(sviews(all@) =~= Seq::<Seq<char>>::empty());
    let mut a: usize = 0;
    while a < body.len()
        invariant
            a <= body@.len(),
            st0 == (ctx_view(*old(ctx)), Seq::<Seq<char>>::empty()),
            (ctx_view(*ctx), sviews(all@)) == assigns_step(st0, body@.take(a as int)),
        decreases body@.len() - a,
    {
        assert(body@.take(a + 1).drop_last() =~= body@.take(a as int));
        assert(body@.take(a + 1).last() == body@[a as int]);
        let asg = &body[a];
        let ghost mid = (ctx_view(*ctx), sviews(all@));
        let mut t: usize = 0;
        while t < asg.targets.len()
            invariant
                t <= asg.targets@.len(),
                (ctx_view(*ctx), sviews(all@)) == targets_step(
                    mid,
                    asg.targets@.take(t as int),
                    asg.value,
                ),
            decreases asg.targets@.len() - t,
        {
            assert(asg.targets@.take(t + 1).drop_last() =~= asg.targets@.take(t as int));
            assert(asg.targets@.take(t + 1).last() == asg.targets@[t as int]);
            if let PyExpr::Name(id) = &asg.targets[t] {
                let ghost before = (ctx_view(*ctx), sviews(all@));
                let idc = to_chars(id.as_str());
                if chars_eq_str(idc.as_slice(), "__all__") {
                    all = match eval_static_names(&asg.value, ctx) {
                        Some(v) => v,
                        None => Vec::new(),
                    };
                    assert(sviews(all@) == target_step(before, asg.targets@[t as int], asg.value).1);
                }
                let sv = eval_string_expr(&asg.value, ctx);
                let iv = eval_int_expr(&asg.value, ctx);
                let ghost sb = ctx.string_constants@;
                let ghost ib = ctx.int_constants@;
                ctx.string_constants.push((id.clone(), sv));
                ctx.int_constants.push((id.clone(), iv));
                assert(ctx.string_constants@.map_values(|b: (String, Option<String>)| str_binding(b))
                    =~= sb.map_values(|b: (String, Option<String>)| str_binding(b)).push(
                    (id@, match sv { Some(v) => Some(v@), None => None }),
                ));
                assert(ctx.int_constants@.map_values(|b: (String, Option<i32>)| int_binding(b))
                    =~= ib.map_values(|b: (String, Option<i32>)| int_binding(b)).push((id@, iv)));
            }
            t += 1;
        }
        assert(asg.targets@.take(asg.targets@.len() as int) =~= asg.targets@);
        a += 1;
    }
    assert(body@.take(body@.len() as int) =~= body@);
    all
}

// ---------------------------------------------------------------------------
// Aliases of importlib and __import__
// ---------------------------------------------------------------------------

/// The names that `importlib`, `importlib.import_module` and `__import__`
/// are bound to in a module.
#[derive(Debug)]
pub struct AliasState {
    /// Names bound to the `importlib` module.
    pub importlib_modules: Vec<String>,
    /// Names bound to `importlib.import_module`.
    pub import_module_fns: Vec<String>,
    /// Names bound to `__import__`.
    pub import_builtin_fns: Vec<String>,
}

/// Alias names as text.
pub type AliasView = (Seq<Seq<char>>, Seq<Seq<char>>, Seq<Seq<char>>);

/// The view of an alias state.
pub open spec fn alias_view(a: AliasState) -> AliasView {
    (sviews(a.importlib_modules@), sviews(a.import_module_fns@), sviews(a.import_builtin_fns@))
}

/// The imported name of an alias, trimmed, when not empty.
pub open spec fn import_name(a: AliasInfo) -> Option<Seq<char>> {
    let t = trim(a.name@);
    if t.len() == 0 {
        None
    } else {
        Some(t)
    }
}

/// The name an import binds: the `as` name, or else the first component
/// of the imported name (empty when there is none).
pub open spec fn binding_name(a: AliasInfo) -> Seq<char> {
    match a.asname {
        Some(n) => n@,
        None => {
            let t = trim(a.name@);
            if t.len() == 0 {
                Seq::<char>::empty()
            } else {
                first_piece(t, '.')
            }
        },
    }
}

/// The aliases after the names of an `import` statement.
pub open spec fn import_aliases(st: AliasView, names: Seq<AliasInfo>) -> AliasView
    decreases names.len(),
{
    if names.len() == 0 {
        st
    } else {
        let prev = import_aliases(st, names.drop_last());
        let a = names.last();
        match import_name(a) {
            None => prev,
            Some(n) => {
                let bound = binding_name(a);
                if bound.len() == 0 {
                    prev
                } else if n == "importlib"@ {
                    (prev.0.push(bound), prev.1, prev.2)
                } else {
                    prev
                }
            },
        }
    }
}

/// The aliases after the names of a `from module import` statement.
pub open spec fn from_aliases(st: AliasView, module: Seq<char>, names: Seq<AliasInfo>) -> AliasView
    decreases names.len(),
{
    if names.len() == 0 {
        st
    } else {
        let prev = from_aliases(st, module, names.drop_last());
        let a = names.last();
        match import_name(a) {
            None => prev,
            Some(n) => {
                let bound = binding_name(a);
                if bound.len() == 0 {
                    prev
                } else {
                    let p1 = if module == "importlib"@ && n == "import_module"@ {
                        (prev.0, prev.1.push(bound), prev.2)
                    } else {
                        prev
                    };
                    if (module == "builtins"@ || module == "importlib"@) && n == "__import__"@ {
                        (p1.0, p1.1, p1.2.push(bound))
                    } else {
                        p1
                    }
                }
            },
        }
    }
}

/// The module of a `from` import, trimmed (empty when absent).
pub open spec fn from_module(info: ImportFromInfo) -> Seq<char> {
    match info.module {
        Some(m) => trim(m@),
        None => Seq::<char>::empty(),
    }
}

/// The aliases bound by all import statements of a module, in walk order.
pub open spec fn aliases_of(events: Seq<SyntaxEvent>) -> AliasView
    decreases events.len(),
{
    if events.len() == 0 {
        (Seq::<Seq<char>>::empty(), Seq::<Seq<char>>::empty(), Seq::<Seq<char>>::empty())
    } else {
        let prev = aliases_of(events.drop_last());
        match events.last() {
            SyntaxEvent::Import(_, info) => import_aliases(prev, info.names@),
            SyntaxEvent::ImportFrom(_, info) => from_aliases(prev, from_module(info), info.names@),
            SyntaxEvent::Call(_, _) => prev,
        }
    }
}

/// The imported name of an alias, trimmed, when not empty.
pub fn parse_import_name(alias: &AliasInfo) -> (r: Option<String>)
    ensures
        match r {
            Some(n) => import_name(*alias) == Some(n@),
            None => import_name(*alias) is None,
        },
{
    let t = trim_str(alias.name.as_str());
    if t.len() == 0 {
        None
    } else {
        Some(from_chars(t.as_slice()))
    }
}

/// The name an import binds (`as` name, or first component of the name).
pub fn imported_binding_name(alias: &AliasInfo) -> (r: String)
    ensures
        r@ == binding_name(*alias),
{
    if let Some(n) = &alias.asname {
        return n.clone();
    }
    let t = trim_str(alias.name.as_str());
    if t.len() == 0 {
        return String::new();
    }
    let f = first_piece_chars(t.as_slice(), '.');
    from_chars(f.as_slice())
}

fn push_string(v: &mut Vec<String>, s: String)
    ensures
        sviews(final(v)@) == sviews(old(v)@).push(s@),
{
    v.push(s);
    assert(sviews(v@) =~= sviews(old(v)@).push(s@));
}

fn add_import_aliases(st: &mut AliasState, names: &[AliasInfo])
    ensures
        alias_view(*final(st)) == import_aliases(alias_view(*old(st)), names@),
{
    let ghost st0 = alias_view(*st);
    let mut i: usize = 0;
    while i < names.len()
        invariant
            i <= names@.len(),
            st0 == alias_view(*old(st)),
            alias_view(*st) == import_aliases(st0, names@.take(i as int)),
        decreases names@.len() - i,
    {
        assert(names@.take(i + 1).drop_last() =~= names@.take(i as int));
        assert(names@.take(i + 1).last() == names@[i as int]);
        if let Some(n) = parse_import_name(&names[i]) {
            let bound = imported_binding_name(&names[i]);
            if !bound.as_str().is_empty() {
                let nc = to_chars(n.as_str());
                if chars_eq_str(nc.as_slice(), "importlib") {
                    push_string(&mut st.importlib_modules, bound);
                }
            }
        }
        i += 1;
    }
    assert(names@.take(names@.len() as int) =~= names@);
}

fn add_from_aliases(st: &mut AliasState, module: &[char], names: &[AliasInfo])
    ensures
        alias_view(*final(st)) == from_aliases(alias_view(*old(st)), module@, names@),
{
    let ghost st0 = alias_view(*st);
    let is_importlib = chars_eq_str(module, "importlib");
    let is_builtins = chars_eq_str(module, "builtins");
    let mut i: usize = 0;
    while i < names.len()
        invariant
            i <= names@.len(),
            st0 == alias_view(*old(st)),
            is_importlib == (module@ == "importlib"@),
            is_builtins == (module@ == "builtins"@),
            alias_view(*st) == from_aliases(st0, module@, names@.take(i as int)),
        decreases names@.len() - i,
    {
        assert(names@.take(i + 1).drop_last() =~= names@.take(i as int));
        assert(names@.take(i + 1).last() == names@[i as int]);
        if let Some(n) = parse_import_name(&names[i]) {
            let bound = imported_binding_name(&names[i]);
            if !bound.as_str().is_empty() {
                let nc = to_chars(n.as_str());
                if is_importlib && chars_eq_str(nc.as_slice(), "import_module") {
                    push_string(&mut st.import_module_fns, bound.clone());
                }
                if (is_builtins || is_importlib) && chars_eq_str(nc.as_slice(), "__import__") {
                    push_string(&mut st.import_builtin_fns, bound);
                }
            }
        }
        i += 1;
    }
    assert(names@.take(names@.len() as int) =~= names@);
}

fn from_module_chars(info: &ImportFromInfo) -> (r: Vec<char>)
    ensures
        r@ == from_module(*info),
{
    match &info.module {
        Some(m) => trim_str(m.as_str()),
        None => Vec::new(),
    }
}

/// The names bound to `importlib`, `importlib.import_module` and
/// `__import__` by all import statements of a module.
pub fn collect_aliases(events: &[SyntaxEvent]) -> (r: AliasState)
    ensures
        alias_view(r) == aliases_of(events@),
{
    let mut st = AliasState {
        importlib_modules: Vec::new(),
        import_module_fns: Vec::new(),
        import_builtin_fns: Vec::new(),
    };
    assert(alias_view(st) =~= aliases_of(events@.take(0)));
    let mut i: usize = 0;
    while i < events.len()
        invariant
            i <= events@.len(),
            alias_view(st) == aliases_of(events@.take(i as int)),
        decreases events@.len() - i,
    {
        assert(events@.take(i + 1).drop_last() =~= events@.take(i as int));
        assert(events@.take(i + 1).last() == events@[i as int]);
        match &events[i] {
            SyntaxEvent::Import(_, info) => add_import_aliases(&mut st, info.names.as_slice()),
            SyntaxEvent::ImportFrom(_, info) => {
                let m = from_module_chars(info);
                add_from_aliases(&mut st, m.as_slice(), info.names.as_slice());
            },
            SyntaxEvent::Call(_, _) => {},
        }
        i += 1;
    }
    assert(events@.take(events@.len() as int) =~= events@);
    st
}

// ---------------------------------------------------------------------------
// Directives
// ---------------------------------------------------------------------------

/// The lines marked by directive comments: those holding such a comment,
/// and those holding one with nothing but whitespace before it (which
/// also mark the next line).
#[derive(Debug)]
pub struct SkipDirectives {
    /// Lines that hold a directive comment.
    pub same_line: Vec<usize>,
    /// Lines whose directive comment stands alone, marking the next line.
    pub next_line: Vec<usize>,
}

/// The `n` characters of `s` from index `i`.
pub open spec fn window_at(s: Seq<char>, i: int, n: int) -> Seq<char> {
    s.subrange(i, i + n)
}

/// Whether `s` contains `p` as a contiguous part.
pub open spec fn contains_seq(s: Seq<char>, p: Seq<char>) -> bool {
    exists|i: int| 0 <= i && i + p.len() <= s.len() && #[trigger] window_at(s, i, p.len() as int) == p
}

/// The text of a comment after its `#`, trimmed and lower-cased.
pub open spec fn comment_body(text: Seq<char>) -> Seq<char> {
    let t = if text.len() > 0 && text[0] == '#' {
        text.drop_first()
    } else {
        text
    };
    trim(t).map_values(|c: char| crate::text::ascii_lower(c))
}

/// Whether a comment is a `# no-bundle` directive.
pub open spec fn is_no_bundle(c: CommentInfo) -> bool {
    contains_seq(comment_body(c.text@), "no-bundle"@)
}

/// Whether a comment is a `# bundle` directive.
pub open spec fn is_bundle(c: CommentInfo) -> bool {
    contains_seq(comment_body(c.text@), "bundle"@) && !is_no_bundle(c)
}

/// Whether a directive comment of the given kind marks `line`: it is on
/// that line, or alone on the line before.
pub open spec fn marked(comments: Seq<CommentInfo>, no_bundle: bool, line: int) -> bool {
    exists|k: int|
        0 <= k < comments.len() && (if no_bundle {
            is_no_bundle(comments[k])
        } else {
            is_bundle(comments[k])
        }) && (comments[k].line == line || (trim(comments[k].leading@).len() == 0
            && comments[k].line + 1 == line))
}

/// Whether the directives mark `line`.
pub open spec fn directive_marks(d: SkipDirectives, line: usize) -> bool {
    d.same_line@.contains(line) || (line >= 1 && d.next_line@.contains((line - 1) as usize))
}

fn contains_chars(s: &[char], p: &str) -> (r: bool)
    ensures
        r == contains_seq(s@, p@),
{
    let pv = to_chars(p);
    if pv.len() > s.len() {
        return false;
    }
    if pv.len() == 0 {
        assert(window_at(s@, 0, 0) =~= p@);
        return true;
    }
    let mut i: usize = 0;
    while i < s.len() && s.len() - i >= pv.len()
        invariant
            pv@ == p@,
            pv@.len() > 0,
            i <= s@.len(),
            forall|j: int| 0 <= j < i ==> window_at(s@, j, pv@.len() as int) != pv@,
        decreases s@.len() - i,
    {
        let mut window: Vec<char> = Vec::new();
        let mut k: usize = 0;
        while k < pv.len()
            invariant
                k <= pv@.len(),
                i < s@.len(),
                i + pv@.len() <= s.len(),
                window@ == s@.subrange(i as int, i + k),
            decreases pv@.len() - k,
        {
            window.push(s[i + k]);
            k += 1;
            assert(window@ =~= s@.subrange(i as int, i + k));
        }
        if chars_eq(window.as_slice(), pv.as_slice()) {
            assert(window_at(s@, i as int, pv@.len() as int) == p@);
            return true;
        }
        i += 1;
    }
    proof {
        if contains_seq(s@, p@) {
            let j = choose|j: int| 0 <= j && j + p@.len() <= s@.len() && #[trigger] window_at(s@, j, p@.len() as int) == p@;
            assert(j < i);
        }
    }
    false
}

fn comment_body_chars(text: &str) -> (r: Vec<char>)
    ensures
        r@ == comment_body(text@),
{
    let t = to_chars(text);
    let rest = if t.len() > 0 && t[0] == '#' {
        let mut v: Vec<char> = Vec::new();
        let mut k: usize = 1;
        while k < t.len()
            invariant
                1 <= k <= t@.len(),
                v@ == t@.subrange(1, k as int),
            decreases t@.len() - k,
        {
            v.push(t[k]);
            k += 1;
            assert(v@ =~= t@.subrange(1, k as int));
        }
        assert(v@ =~= t@.drop_first());
        v
    } else {
        t
    };
    let tr = trim_chars(rest.as_slice());
    let mut out: Vec<char> = Vec::new();
    let mut i: usize = 0;
    while i < tr.len()
        invariant
            i <= tr@.len(),
            out@ == tr@.take(i as int).map_values(|c: char| crate::text::ascii_lower(c)),
        decreases tr@.len() - i,
    {
        out.push(crate::text::to_ascii_lower(tr[i]));
        i += 1;
        assert(out@ =~= tr@.take(i as int).map_values(|c: char| crate::text::ascii_lower(c)));
    }
    assert(tr@.take(tr@.len() as int) =~= tr@);
    out
}

/// The lines marked by directive comments of one kind: `no_bundle`
/// selects `# no-bundle` comments, otherwise `# bundle` comments.
pub fn collect_directives(comments: &[CommentInfo], no_bundle: bool) -> (r: SkipDirectives)
    ensures
        forall|line: usize| directive_marks(r, line) == marked(comments@, no_bundle, line as int),
{
    let mut same: Vec<usize> = Vec::new();
    let mut next: Vec<usize> = Vec::new();
    let mut i: usize = 0;
    while i < comments.len()
        invariant
            i <= comments@.len(),
            forall|l: usize| #[trigger] same@.contains(l) <==> exists|k: int|
                0 <= k < i && (if no_bundle {
                    is_no_bundle(comments@[k])
                } else {
                    is_bundle(comments@[k])
                }) && comments@[k].line == l,
            forall|l: usize| #[trigger] next@.contains(l) <==> exists|k: int|
                0 <= k < i && (if no_bundle {
                    is_no_bundle(comments@[k])
                } else {
                    is_bundle(comments@[k])
                }) && comments@[k].line == l && trim(comments@[k].leading@).len() == 0,
        decreases comments@.len() - i,
    {
        let c = &comments[i];
        let body = comment_body_chars(c.text.as_str());
        let nb = contains_chars(body.as_slice(), "no-bundle");
        let hit = if no_bundle {
            nb
        } else {
            !nb && contains_chars(body.as_slice(), "bundle")
        };
        let ghost s0 = same@;
        let ghost n0 = next@;
        if hit {
            same.push(c.line);
            let lead = trim_str(c.leading.as_str());
            if lead.len() == 0 {
                next.push(c.line);
            }
        }
        assert forall|l: usize| #[trigger] same@.contains(l) <==> exists|k: int|
            0 <= k < i + 1 && (if no_bundle {
                is_no_bundle(comments@[k])
            } else {
                is_bundle(comments@[k])
            }) && comments@[k].line == l by {
            if same@.contains(l) && !s0.contains(l) {
                assert(comments@[i as int].line == l);
            }
            if s0.contains(l) {
                let j = choose|j: int| 0 <= j < s0.len() && s0[j] == l;
                assert(same@[j] == l);
            }
            if exists|k: int|
                0 <= k < i + 1 && (if no_bundle {
                    is_no_bundle(comments@[k])
                } else {
                    is_bundle(comments@[k])
                }) && comments@[k].line == l {
                let k = choose|k: int|
                    0 <= k < i + 1 && (if no_bundle {
                        is_no_bundle(comments@[k])
                    } else {
                        is_bundle(comments@[k])
                    }) && comments@[k].line == l;
                if k == i {
                    assert(same@[same@.len() - 1] == l);
                } else {
                    assert(s0.contains(l));
                    let j = choose|j: int| 0 <= j < s0.len() && s0[j] == l;
                    assert(same@[j] == l);
                }
            }
        }
        assert forall|l: usize| #[trigger] next@.contains(l) <==> exists|k: int|
            0 <= k < i + 1 && (if no_bundle {
                is_no_bundle(comments@[k])
            } else {
                is_bundle(comments@[k])
            }) && comments@[k].line == l && trim(comments@[k].leading@).len() == 0 by {
            if next@.contains(l) && !n0.contains(l) {
                assert(comments@[i as int].line == l);
            }
            if n0.contains(l) {
                let j = choose|j: int| 0 <= j < n0.len() && n0[j] == l;
                assert(next@[j] == l);
            }
            if exists|k: int|
                0 <= k < i + 1 && (if no_bundle {
                    is_no_bundle(comments@[k])
                } else {
                    is_bundle(comments@[k])
                }) && comments@[k].line == l && trim(comments@[k].leading@).len() == 0 {
                let k = choose|k: int|
                    0 <= k < i + 1 && (if no_bundle {
                        is_no_bundle(comments@[k])
                    } else {
                        is_bundle(comments@[k])
                    }) && comments@[k].line == l && trim(comments@[k].leading@).len() == 0;
                if k == i {
                    assert(next@[next@.len() - 1] == l);
                } else {
                    assert(n0.contains(l));
                    let j = choose|j: int| 0 <= j < n0.len() && n0[j] == l;
                    assert(next@[j] == l);
                }
            }
        }
        i += 1;
    }
    let r = SkipDirectives { same_line: same, next_line: next };
    assert forall|line: usize| directive_marks(r, line) == marked(
        comments@,
        no_bundle,
        line as int,
    ) by {
        if r.same_line@.contains(line) {
        }
        if line >= 1 && r.next_line@.contains((line - 1) as usize) {
        }
        if marked(comments@, no_bundle, line as int) {
            let k = choose|k: int|
                0 <= k < comments@.len() && (if no_bundle {
                    is_no_bundle(comments@[k])
                } else {
                    is_bundle(comments@[k])
                }) && (comments@[k].line == line || (trim(comments@[k].leading@).len() == 0
                    && comments@[k].line + 1 == line));
            if comments@[k].line == line {
                assert(r.same_line@.contains(line));
            } else {
                assert(r.next_line@.contains((line - 1) as usize));
            }
        }
    }
    r
}

fn usizes_contain(v: &[usize], x: usize) -> (r: bool)
    ensures
        r == v@.contains(x),
{
    let mut i: usize = 0;
    while i < v.len()
        invariant
            i <= v@.len(),
            forall|k: int| 0 <= k < i ==> v@[k] != x,
        decreases v@.len() - i,
    {
        if v[i] == x {
            return true;
        }
        i += 1;
    }
    false
}

/// Whether a directive marks `line` (a comment on it, or alone on the
/// line before).
pub fn is_skipped_import(line: usize, skip_lines: &SkipDirectives) -> (r: bool)
    ensures
        r == directive_marks(*skip_lines, line),
{
    usizes_contain(skip_lines.same_line.as_slice(), line) || (line >= 1 && usizes_contain(
        skip_lines.next_line.as_slice(),
        line - 1,
    ))
}

// ---------------------------------------------------------------------------
// Import requests
// ---------------------------------------------------------------------------

/// An import request as values: module name, line, relative, relative
/// level, must resolve, require parent packages, force bundle, expand all.
pub type ReqView = (Seq<char>, usize, bool, usize, bool, bool, bool, bool);

/// The view of an import request.
pub open spec fn req_view(r: ImportRequest) -> ReqView {
    (
        r.module_name@,
        r.line,
        r.is_relative,
        r.relative_level,
        r.must_resolve,
        r.require_parent_packages,
        r.force_bundle,
        r.expand_all,
    )
}

/// The views of import requests.
pub open spec fn req_views(s: Seq<ImportRequest>) -> Seq<ReqView> {
    s.map_values(|r: ImportRequest| req_view(r))
}

/// The requests of `import a, b.c`: one absolute import per name.
pub open spec fn import_requests(names: Seq<AliasInfo>, line: usize, force: bool) -> Seq<ReqView>
    decreases names.len(),
{
    if names.len() == 0 {
        Seq::<ReqView>::empty()
    } else {
        let prev = import_requests(names.drop_last(), line, force);
        match import_name(names.last()) {
            Some(n) => prev.push((n, line, false, 0, false, true, force, false)),
            None => prev,
        }
    }
}

/// Whether a `from` import imports `*`.
pub open spec fn has_star(names: Seq<AliasInfo>) -> bool {
    exists|k: int| 0 <= k < names.len() && import_name(#[trigger] names[k]) == Some("*"@)
}

/// The submodule requests of `from base import a, b`: `base.a`, `base.b`
/// (or just the names when `base` is empty), skipping `*`.
pub open spec fn from_subs(
    base: Seq<char>,
    names: Seq<AliasInfo>,
    line: usize,
    rel: bool,
    lvl: usize,
    force: bool,
) -> Seq<ReqView>
    decreases names.len(),
{
    if names.len() == 0 {
        Seq::<ReqView>::empty()
    } else {
        let prev = from_subs(base, names.drop_last(), line, rel, lvl, force);
        match import_name(names.last()) {
            Some(n) => if n == "*"@ {
                prev
            } else {
                let sub = if base.len() == 0 {
                    n
                } else {
                    base.push('.') + n
                };
                prev.push((sub, line, rel, lvl, false, true, force, false))
            },
            None => prev,
        }
    }
}

/// The submodule requests name each imported name (but `*`) under the
/// base module, joined by a dot.
proof fn lemma_from_subs_has(
    base: Seq<char>,
    names: Seq<AliasInfo>,
    line: usize,
    rel: bool,
    lvl: usize,
    force: bool,
    j: int,
)
    requires
        0 <= j < names.len(),
        base.len() > 0,
        trim(names[j].name@).len() > 0,
        trim(names[j].name@) != "*"@,
    ensures
        exists|k: int|
            0 <= k < from_subs(base, names, line, rel, lvl, force).len() && (#[trigger] from_subs(
                base,
                names,
                line,
                rel,
                lvl,
                force,
            )[k]).0 == base.push('.') + trim(names[j].name@),
    decreases names.len(),
{
    let prev = from_subs(base, names.drop_last(), line, rel, lvl, force);
    let all = from_subs(base, names, line, rel, lvl, force);
    if j == names.len() - 1 {
        assert(all[prev.len() as int].0 == base.push('.') + trim(names[j].name@));
    } else {
        lemma_from_subs_has(base, names.drop_last(), line, rel, lvl, force, j);
        let k = choose|k: int|
            0 <= k < prev.len() && (#[trigger] prev[k]).0 == base.push('.') + trim(
                names.drop_last()[j].name@,
            );
        assert(all[k] == prev[k]);
    }
}

/// Every submodule request names an imported name other than `*` under
/// the base module.
proof fn lemma_from_subs_only(
    base: Seq<char>,
    names: Seq<AliasInfo>,
    line: usize,
    rel: bool,
    lvl: usize,
    force: bool,
    k: int,
)
    requires
        base.len() > 0,
        0 <= k < from_subs(base, names, line, rel, lvl, force).len(),
    ensures
        exists|j: int|
            0 <= j < names.len() && trim(names[j].name@).len() > 0 && trim(names[j].name@) != "*"@
                && from_subs(base, names, line, rel, lvl, force)[k].0 == base.push('.') + trim(
                #[trigger] names[j].name@,
            ),
    decreases names.len(),
{
    let prev = from_subs(base, names.drop_last(), line, rel, lvl, force);
    let all = from_subs(base, names, line, rel, lvl, force);
    if k < prev.len() {
        lemma_from_subs_only(base, names.drop_last(), line, rel, lvl, force, k);
        let j = choose|j: int|
            0 <= j < names.drop_last().len() && trim(names.drop_last()[j].name@).len() > 0 && trim(
                names.drop_last()[j].name@,
            ) != "*"@ && prev[k].0 == base.push('.') + trim(#[trigger] names.drop_last()[j].name@);
        assert(names.drop_last()[j] == names[j]);
        assert(all[k] == prev[k]);
    } else {
        let j = names.len() - 1;
        assert(names[j] == names.last());
    }
}

/// `from B import n` requests the module `B` itself first, and then, for
/// every imported name `n` other than `*`, the submodule `B.n`: the name
/// joined to the base with a dot, so that a submodule imported this way is
/// looked up under its package, not as a top-level module.
pub proof fn lemma_from_import_requests_submodules(info: ImportFromInfo, line: usize, force: bool, j: int)
    requires
        0 <= j < info.names@.len(),
        info.module matches Some(m) && trim(m@).len() > 0,
        trim(info.names@[j].name@).len() > 0,
        trim(info.names@[j].name@) != "*"@,
    ensures
        from_requests(info, line, force)[0].0 == trim(info.module->0@),
        exists|k: int|
            0 < k < from_requests(info, line, force).len() && (#[trigger] from_requests(info, line, force)[k]).0
                == trim(info.module->0@).push('.') + trim(info.names@[j].name@),
        forall|k: int|
            0 < k < from_requests(info, line, force).len() ==> exists|i: int|
                0 <= i < info.names@.len() && trim(info.names@[i].name@).len() > 0 && trim(
                    info.names@[i].name@,
                ) != "*"@ && (#[trigger] from_requests(info, line, force)[k]).0 == trim(
                    info.module->0@,
                ).push('.') + trim(info.names@[i].name@),
{
    let base = from_module(info);
    let rel = info.level > 0;
    let lvl = info.level as usize;
    let subs = from_subs(base, info.names@, line, rel, lvl, force);
    lemma_from_subs_has(base, info.names@, line, rel, lvl, force, j);
    let k = choose|k: int|
        0 <= k < subs.len() && (#[trigger] subs[k]).0 == base.push('.') + trim(info.names@[j].name@);
    let all = from_requests(info, line, force);
    assert(all[k + 1] == subs[k]);
    assert forall|q: int| 0 < q < all.len() implies exists|i: int|
        0 <= i < info.names@.len() && trim(info.names@[i].name@).len() > 0 && trim(info.names@[i].name@)
            != "*"@ && (#[trigger] all[q]).0 == base.push('.') + trim(info.names@[i].name@) by {
        lemma_from_subs_only(base, info.names@, line, rel, lvl, force, q - 1);
        assert(all[q] == subs[q - 1]);
    }
}

/// The requests of `from <dots><base> import ...`: the base module itself
/// (which must resolve when the import is relative, and whose `__all__`
/// is expanded for `*`), then each imported name as a possible submodule.
pub open spec fn from_requests(info: ImportFromInfo, line: usize, force: bool) -> Seq<ReqView> {
    let base = from_module(info);
    let rel = info.level > 0;
    let lvl = info.level as usize;
    seq![(base, line, rel, lvl, rel, true, force, has_star(info.names@))] + from_subs(
        base,
        info.names@,
        line,
        rel,
        lvl,
        force,
    )
}

fn request(
    module_name: String,
    line: usize,
    is_relative: bool,
    relative_level: usize,
    must_resolve: bool,
    force_bundle: bool,
    expand_all: bool,
) -> (r: ImportRequest)
    ensures
        req_view(r) == (
            module_name@,
            line,
            is_relative,
            relative_level,
            must_resolve,
            true,
            force_bundle,
            expand_all,
        ),
{
    ImportRequest {
        module_name,
        line,
        is_relative,
        relative_level,
        must_resolve,
        require_parent_packages: true,
        force_bundle,
        expand_all,
    }
}

fn push_request(v: &mut Vec<ImportRequest>, r: ImportRequest)
    ensures
        req_views(final(v)@) == req_views(old(v)@).push(req_view(r)),
{
    v.push(r);
    assert(req_views(v@) =~= req_views(old(v)@).push(req_view(r)));
}

/// Appends the submodule requests of `fromlist` names under `base`.
fn push_fromlist_requests(
    out: &mut Vec<ImportRequest>,
    base: &[char],
    names: &[String],
    line: usize,
    rel: bool,
    lvl: usize,
    force: bool,
)
    ensures
        req_views(final(out)@) == req_views(old(out)@) + fromlist_subs(
            base@,
            sviews(names@),
            line,
            rel,
            lvl,
            force,
        ),
{
    let mut i: usize = 0;
    assert(sviews(names@).take(0) =~= Seq::<Seq<char>>::empty());
    assert(req_views(out@) =~= req_views(old(out)@) + Seq::<ReqView>::empty());
    while i < names.len()
        invariant
            i <= names@.len(),
            req_views(out@) == req_views(old(out)@) + fromlist_subs(
                base@,
                sviews(names@).take(i as int),
                line,
                rel,
                lvl,
                force,
            ),
        decreases names@.len() - i,
    {
        let ghost nv = sviews(names@).take(i + 1);
        assert(nv.drop_last() =~= sviews(names@).take(i as int));
        assert(nv.last() == names@[i as int]@);
        let n = to_chars(names[i].as_str());
        if !(n.len() == 0 || chars_eq_str(n.as_slice(), "*")) {
            let mut sub: Vec<char> = Vec::new();
            if base.len() > 0 {
                push_all(&mut sub, base);
                sub.push('.');
            }
            push_all(&mut sub, n.as_slice());
            proof {
                if base@.len() == 0 {
                    assert(sub@ =~= n@);
                } else {
                    assert(sub@ =~= base@.push('.') + n@);
                }
            }
            let ghost before = req_views(out@);
            push_request(out, request(from_chars(sub.as_slice()), line, rel, lvl, false, force, false));
            assert(req_views(out@) =~= req_views(old(out)@) + fromlist_subs(
                base@,
                nv,
                line,
                rel,
                lvl,
                force,
            ));
        }
        i += 1;
    }
    assert(sviews(names@).take(names@.len() as int) =~= sviews(names@));
}

/// The requests of `import a, b.c` on `line`; `force` when a `# bundle`
/// directive marks the line.
pub fn parse_import_statement(node: &ImportInfo, line: usize, force: bool) -> (r: Vec<
    ImportRequest,
>)
    ensures
        req_views(r@) == import_requests(node.names@, line, force),
{
    let mut out: Vec<ImportRequest> = Vec::new();
    let mut i: usize = 0;
    assert(req_views(out@) =~= Seq::<ReqView>::empty());
    while i < node.names.len()
        invariant
            i <= node.names@.len(),
            req_views(out@) == import_requests(node.names@.take(i as int), line, force),
        decreases node.names@.len() - i,
    {
        assert(node.names@.take(i + 1).drop_last() =~= node.names@.take(i as int));
        assert(node.names@.take(i + 1).last() == node.names@[i as int]);
        if let Some(n) = parse_import_name(&node.names[i]) {
            push_request(&mut out, request(n, line, false, 0, false, force, false));
        }
        i += 1;
    }
    assert(node.names@.take(node.names@.len() as int) =~= node.names@);
    out
}

/// The requests of `from <dots><module> import ...` on `line`. This never
/// fails: the base module is always requested.
pub fn parse_from_import_statement(node: &ImportFromInfo, line: usize, force: bool) -> (r: Result<
    Vec<ImportRequest>,
    String,
>)
    ensures
        match r {
            Ok(v) => req_views(v@) == from_requests(*node, line, force),
            Err(_) => false,
        },
{
    let base = from_module_chars(node);
    let is_relative = node.level > 0;
    let relative_level = node.level as usize;
    let mut star = false;
    let mut subs: Vec<ImportRequest> = Vec::new();
    let mut i: usize = 0;
    assert(req_views(subs@) =~= Seq::<ReqView>::empty());
    while i < node.names.len()
        invariant
            i <= node.names@.len(),
            base@ == from_module(*node),
            relative_level == node.level as usize,
            is_relative == (node.level > 0),
            star == has_star(node.names@.take(i as int)),
            req_views(subs@) == from_subs(
                base@,
                node.names@.take(i as int),
                line,
                is_relative,
                relative_level,
                force,
            ),
        decreases node.names@.len() - i,
    {
        let ghost pre = node.names@.take(i as int);
        let ghost cur = node.names@.take(i + 1);
        assert(cur.drop_last() =~= pre);
        assert(cur.last() == node.names@[i as int]);
        if let Some(symbol) = parse_import_name(&node.names[i]) {
            let sc = to_chars(symbol.as_str());
            if chars_eq_str(sc.as_slice(), "*") {
                star = true;
                assert(cur[i as int] == node.names@[i as int]);
                assert(has_star(cur));
            } else {
                let sub = if base.len() == 0 {
                    symbol
                } else {
                    let mut v: Vec<char> = Vec::new();
                    push_all(&mut v, base.as_slice());
                    v.push('.');
                    push_all(&mut v, sc.as_slice());
                    from_chars(v.as_slice())
                };
                push_request(
                    &mut subs,
                    request(sub, line, is_relative, relative_level, false, force, false),
                );
            }
        }
        proof {
            if has_star(cur) && !star {
                let k = choose|k: int| 0 <= k < cur.len() && import_name(#[trigger] cur[k]) == Some("*"@);
                if k < i {
                    assert(pre[k] == cur[k]);
                }
            }
            if has_star(pre) {
                let k = choose|k: int| 0 <= k < pre.len() && import_name(#[trigger] pre[k]) == Some("*"@);
                assert(cur[k] == pre[k]);
            }
        }
        i += 1;
    }
    assert(node.names@.take(node.names@.len() as int) =~= node.names@);
    let first = request(
        from_chars(base.as_slice()),
        line,
        is_relative,
        relative_level,
        is_relative,
        force,
        star,
    );
    let mut out: Vec<ImportRequest> = Vec::new();
    out.push(first);
    let mut k: usize = 0;
    let ghost fv = req_view(first);
    assert(req_views(out@) =~= seq![fv]);
    while k < subs.len()
        invariant
            k <= subs@.len(),
            req_views(out@) == seq![fv] + req_views(subs@).take(k as int),
        decreases subs@.len() - k,
    {
        let r = ImportRequest {
            module_name: subs[k].module_name.clone(),
            line: subs[k].line,
            is_relative: subs[k].is_relative,
            relative_level: subs[k].relative_level,
            must_resolve: subs[k].must_resolve,
            require_parent_packages: subs[k].require_parent_packages,
            force_bundle: subs[k].force_bundle,
            expand_all: subs[k].expand_all,
        };
        push_request(&mut out, r);
        k += 1;
        assert(req_views(out@) =~= seq![fv] + req_views(subs@).take(k as int));
    }
    assert(req_views(subs@).take(subs@.len() as int) =~= req_views(subs@));
    Ok(out)
}

// ---------------------------------------------------------------------------
// Dynamic imports
// ---------------------------------------------------------------------------

/// Which dynamic import a call makes.
#[derive(Debug, Clone, Copy, PartialEq, Eq)]
pub enum DynamicImportFunction {
    /// `__import__(name, ..., level)`.
    BuiltinImport,
    /// `importlib.import_module(name, package)`.
    ImportModule,
}

/// Which dynamic import a called expression denotes: `__import__` or a
/// name bound to it, a name bound to `importlib.import_module`, or
/// `__import__` / `import_module` of `importlib` or a name bound to it.
pub open spec fn dyn_kind(func: PyExpr, al: AliasView) -> Option<DynamicImportFunction> {
    match func {
        PyExpr::Name(id) => if id@ == "__import__"@ || al.2.contains(id@) {
            Some(DynamicImportFunction::BuiltinImport)
        } else if al.1.contains(id@) {
            Some(DynamicImportFunction::ImportModule)
        } else {
            None
        },
        PyExpr::Attribute(v, attr) => if !(attr@ == "__import__"@ || attr@ == "import_module"@) {
            None
        } else {
            match *v {
                PyExpr::Name(obj) => if obj@ == "importlib"@ || al.0.contains(obj@) {
                    if attr@ == "__import__"@ {
                        Some(DynamicImportFunction::BuiltinImport)
                    } else {
                        Some(DynamicImportFunction::ImportModule)
                    }
                } else {
                    None
                },
                _ => None,
            }
        },
        _ => None,
    }
}

/// The last keyword argument with the given name.
pub open spec fn kw_lookup(kws: Seq<KeywordInfo>, name: Seq<char>) -> Option<PyExpr>
    decreases kws.len(),
{
    if kws.len() == 0 {
        None
    } else if kws.last().arg is Some && kws.last().arg->0@ == name {
        Some(kws.last().value)
    } else {
        kw_lookup(kws.drop_last(), name)
    }
}

/// The argument passed as keyword `name`, or else in position `pos`.
pub open spec fn arg_for(call: CallInfo, name: Seq<char>, pos: int) -> Option<PyExpr> {
    match kw_lookup(call.keywords@, name) {
        Some(e) => Some(e),
        None => if 0 <= pos < call.args@.len() {
            Some(call.args@[pos])
        } else {
            None
        },
    }
}

/// The names of a static `fromlist` passed to `__import__` (keyword
/// `fromlist` or the fourth positional argument); none when it is absent
/// or not a list or tuple of constant strings.
pub open spec fn fromlist_of(call: CallInfo, ctx: CtxView) -> Seq<Seq<char>> {
    match arg_for(call, "fromlist"@, 3) {
        Some(e) => match static_names(e, ctx) {
            Some(ns) => ns,
            None => Seq::<Seq<char>>::empty(),
        },
        None => Seq::<Seq<char>>::empty(),
    }
}

/// The submodule requests of `fromlist` names under `base`: one per name
/// other than `*` and the empty name.
pub open spec fn fromlist_subs(
    base: Seq<char>,
    names: Seq<Seq<char>>,
    line: usize,
    rel: bool,
    lvl: usize,
    force: bool,
) -> Seq<ReqView>
    decreases names.len(),
{
    if names.len() == 0 {
        Seq::<ReqView>::empty()
    } else {
        let prev = fromlist_subs(base, names.drop_last(), line, rel, lvl, force);
        let n = names.last();
        if n.len() == 0 || n == "*"@ {
            prev
        } else {
            let sub = if base.len() == 0 {
                n
            } else {
                base.push('.') + n
            };
            prev.push((sub, line, rel, lvl, false, true, force, false))
        }
    }
}

/// The further requests of a dynamic import: for `__import__`, the names
/// of its static `fromlist` as possible submodules of the imported name.
pub open spec fn dyn_subs(call: CallInfo, q: ReqView, ctx: CtxView, al: AliasView) -> Seq<ReqView> {
    match dyn_kind(call.func, al) {
        Some(DynamicImportFunction::BuiltinImport) => fromlist_subs(
            q.0,
            fromlist_of(call, ctx),
            q.1,
            q.2,
            q.3,
            q.6,
        ),
        _ => Seq::<ReqView>::empty(),
    }
}

/// The request a call makes: `Ok(None)` when it is no dynamic import,
/// otherwise the import with its arguments evaluated as constants, or why
/// they cannot be.
pub open spec fn dyn_request(
    call: CallInfo,
    line: usize,
    force: bool,
    ctx: CtxView,
    al: AliasView,
) -> Result<Option<ReqView>, Seq<char>> {
    match dyn_kind(call.func, al) {
        None => Ok(None),
        Some(DynamicImportFunction::BuiltinImport) => match arg_for(call, "name"@, 0) {
            None => Err("__import__ requires module name argument"@),
            Some(nn) => match eval_str(nn, ctx) {
                None => Err("__import__ module name is not statically resolvable"@),
                Some(name) => {
                    let lvl: Result<i32, Seq<char>> = match arg_for(call, "level"@, 4) {
                        None => Ok(0i32),
                        Some(ln) => match eval_int(ln, ctx) {
                            None => Err("__import__ level is not statically resolvable"@),
                            Some(v) => Ok(v),
                        },
                    };
                    match lvl {
                        Err(e) => Err(e),
                        Ok(v) => Ok(
                            Some(
                                (
                                    name,
                                    line,
                                    v > 0,
                                    if v > 0 {
                                        v as usize
                                    } else {
                                        0usize
                                    },
                                    v > 0,
                                    true,
                                    force,
                                    fromlist_of(call, ctx).contains("*"@),
                                ),
                            ),
                        ),
                    }
                },
            },
        },
        Some(DynamicImportFunction::ImportModule) => match arg_for(call, "name"@, 0) {
            None => Err("import_module requires module name argument"@),
            Some(nn) => match eval_str(nn, ctx) {
                None => Err("import_module module name is not statically resolvable"@),
                Some(raw) => if raw.len() > 0 && raw[0] == '.' {
                    match arg_for(call, "package"@, 1) {
                        None => Err("relative import_module requires package argument"@),
                        Some(pn) => match eval_str(pn, ctx) {
                            None => Err("import_module package argument is not statically resolvable"@),
                            Some(pkg) => match relative_name_with_package(pkg, raw) {
                                Err(e) => Err(e),
                                Ok(m) => Ok(Some((m, line, false, 0, true, true, force, false))),
                            },
                        },
                    }
                } else {
                    Ok(Some((raw, line, false, 0, false, true, force, false)))
                },
            },
        },
    }
}

/// Which dynamic import a called expression denotes, if any.
pub fn identify_dynamic_import_function(fn_expr: &PyExpr, aliases: &AliasState) -> (r: Option<
    DynamicImportFunction,
>)
    ensures
        r == dyn_kind(*fn_expr, alias_view(*aliases)),
{
    match fn_expr {
        PyExpr::Name(id) => {
            let name = to_chars(id.as_str());
            if chars_eq_str(name.as_slice(), "__import__") || crate::text::strings_contain(
                aliases.import_builtin_fns.as_slice(),
                name.as_slice(),
            ) {
                return Some(DynamicImportFunction::BuiltinImport);
            }
            if crate::text::strings_contain(aliases.import_module_fns.as_slice(), name.as_slice()) {
                return Some(DynamicImportFunction::ImportModule);
            }
            None
        },
        PyExpr::Attribute(value, attr) => {
            let a = to_chars(attr.as_str());
            let is_builtin = chars_eq_str(a.as_slice(), "__import__");
            if !is_builtin && !chars_eq_str(a.as_slice(), "import_module") {
                return None;
            }
            match &**value {
                PyExpr::Name(id) => {
                    let obj = to_chars(id.as_str());
                    if chars_eq_str(obj.as_slice(), "importlib") || crate::text::strings_contain(
                        aliases.importlib_modules.as_slice(),
                        obj.as_slice(),
                    ) {
                        if is_builtin {
                            return Some(DynamicImportFunction::BuiltinImport);
                        }
                        return Some(DynamicImportFunction::ImportModule);
                    }
                    None
                },
                _ => None,
            }
        },
        _ => None,
    }
}

/// The argument passed as keyword `name`, or else in position `pos`.
pub fn call_argument<'a>(call: &'a CallInfo, name: &str, pos: usize) -> (r: Option<&'a PyExpr>)
    ensures
        match r {
            Some(e) => arg_for(*call, name@, pos as int) == Some(*e),
            None => arg_for(*call, name@, pos as int) is None,
        },
{
    let nv = to_chars(name);
    let kws = &call.keywords;
    let mut k = kws.len();
    assert(kws@.take(k as int) =~= kws@);
    while k > 0
        invariant
            k <= kws@.len(),
            nv@ == name@,
            kws == call.keywords,
            kw_lookup(kws@, name@) == kw_lookup(kws@.take(k as int), name@),
        decreases k,
    {
        assert(kws@.take(k as int).drop_last() =~= kws@.take(k - 1));
        assert(kws@.take(k as int).last() == kws@[k - 1]);
        if let Some(a) = &kws[k - 1].arg {
            let ac = to_chars(a.as_str());
            if chars_eq(ac.as_slice(), nv.as_slice()) {
                return Some(&kws[k - 1].value);
            }
        }
        k -= 1;
    }
    if pos < call.args.len() {
        Some(&call.args[pos])
    } else {
        None
    }
}

/// The request a call makes when it is a static `__import__` or
/// `import_module` call. Returns the requests and whether the call was a
/// dynamic import; fails when its arguments are not constants.
pub fn parse_dynamic_import_call(
    node: &CallInfo,
    line: usize,
    force: bool,
    ctx: &EvalContext,
    aliases: &AliasState,
) -> (r: Result<(Vec<ImportRequest>, bool), String>)
    ensures
        match r {
            Ok((v, handled)) => match dyn_request(
                *node,
                line,
                force,
                ctx_view(*ctx),
                alias_view(*aliases),
            ) {
                Ok(None) => !handled && v@.len() == 0,
                Ok(Some(q)) => handled && req_views(v@) == seq![q] + dyn_subs(
                    *node,
                    q,
                    ctx_view(*ctx),
                    alias_view(*aliases),
                ),
                Err(_) => false,
            },
            Err(e) => dyn_request(*node, line, force, ctx_view(*ctx), alias_view(*aliases))
                == Err::<Option<ReqView>, Seq<char>>(e@),
        },
{
    let kind = identify_dynamic_import_function(&node.func, aliases);
    let mut out: Vec<ImportRequest> = Vec::new();
    match kind {
        None => Ok((out, false)),
        Some(DynamicImportFunction::BuiltinImport) => {
            let name_node = match call_argument(node, "name", 0) {
                Some(n) => n,
                None => {
                    return Err(string_of("__import__ requires module name argument"));
                },
            };
            let name = match eval_string_expr(name_node, ctx) {
                Some(n) => n,
                None => {
                    return Err(string_of("__import__ module name is not statically resolvable"));
                },
            };
            let level: i32 = match call_argument(node, "level", 4) {
                Some(ln) => match eval_int_expr(ln, ctx) {
                    Some(v) => v,
                    None => {
                        return Err(string_of("__import__ level is not statically resolvable"));
                    },
                },
                None => 0,
            };
            let fromlist: Vec<String> = match call_argument(node, "fromlist", 3) {
                Some(fl) => match eval_static_names(fl, ctx) {
                    Some(v) => v,
                    None => Vec::new(),
                },
                None => Vec::new(),
            };
            assert(sviews(fromlist@) == fromlist_of(*node, ctx_view(*ctx)));
            let star_c = to_chars("*");
            let star = strings_contain(fromlist.as_slice(), star_c.as_slice());
            let base = to_chars(name.as_str());
            let (rel, lvl): (bool, usize) = if level > 0 {
                (true, level as usize)
            } else {
                (false, 0)
            };
            let r = request(name, line, rel, lvl, rel, force, star);
            push_request(&mut out, r);
            assert(req_views(out@) =~= seq![req_view(r)]);
            push_fromlist_requests(&mut out, base.as_slice(), fromlist.as_slice(), line, rel, lvl, force);
            Ok((out, true))
        },
        Some(DynamicImportFunction::ImportModule) => {
            let name_node = match call_argument(node, "name", 0) {
                Some(n) => n,
                None => {
                    return Err(string_of("import_module requires module name argument"));
                },
            };
            let raw = match eval_string_expr(name_node, ctx) {
                Some(n) => n,
                None => {
                    return Err(string_of("import_module module name is not statically resolvable"));
                },
            };
            let rc = to_chars(raw.as_str());
            let r = if rc.len() > 0 && rc[0] == '.' {
                let package_node = match call_argument(node, "package", 1) {
                    Some(p) => p,
                    None => {
                        return Err(string_of("relative import_module requires package argument"));
                    },
                };
                let package_name = match eval_string_expr(package_node, ctx) {
                    Some(p) => p,
                    None => {
                        return Err(
                            string_of("import_module package argument is not statically resolvable"),
                        );
                    },
                };
                let m = resolve_relative_name_with_package_arg(package_name.as_str(), raw.as_str())?;
                request(m, line, false, 0, true, force, false)
            } else {
                request(raw, line, false, 0, false, force, false)
            };
            push_request(&mut out, r);
            assert(req_views(out@) =~= seq![req_view(r)]);
            Ok((out, true))
        },
    }
}

// ---------------------------------------------------------------------------
// Module analysis
// ---------------------------------------------------------------------------

/// The requests one import statement or call adds: none when a
/// `# no-bundle` directive marks its line; forced when a `# bundle`
/// directive does. A failing call is reported with the file and its
/// one-based line.
pub open spec fn event_requests(
    ev: SyntaxEvent,
    comments: Seq<CommentInfo>,
    ctx: CtxView,
    al: AliasView,
    path: Seq<char>,
) -> Result<Seq<ReqView>, Seq<char>> {
    match ev {
        SyntaxEvent::Import(line, info) => if marked(comments, true, line as int) {
            Ok(Seq::<ReqView>::empty())
        } else {
            Ok(import_requests(info.names@, line, marked(comments, false, line as int)))
        },
        SyntaxEvent::ImportFrom(line, info) => if marked(comments, true, line as int) {
            Ok(Seq::<ReqView>::empty())
        } else {
            Ok(from_requests(info, line, marked(comments, false, line as int)))
        },
        SyntaxEvent::Call(line, call) => if marked(comments, true, line as int) {
            Ok(Seq::<ReqView>::empty())
        } else {
            match dyn_request(call, line, marked(comments, false, line as int), ctx, al) {
                Ok(None) => Ok(Seq::<ReqView>::empty()),
                Ok(Some(q)) => Ok(seq![q] + dyn_subs(call, q, ctx, al)),
                Err(e) => Err(path + " line "@ + decimal((line + 1) as nat) + ": "@ + e),
            }
        },
    }
}

/// The requests of all events in order, or the first failure.
pub open spec fn events_requests(
    evs: Seq<SyntaxEvent>,
    comments: Seq<CommentInfo>,
    ctx: CtxView,
    al: AliasView,
    path: Seq<char>,
) -> Result<Seq<ReqView>, Seq<char>>
    decreases evs.len(),
{
    if evs.len() == 0 {
        Ok(Seq::<ReqView>::empty())
    } else {
        match events_requests(evs.drop_last(), comments, ctx, al, path) {
            Err(e) => Err(e),
            Ok(acc) => match event_requests(evs.last(), comments, ctx, al, path) {
                Err(e) => Err(e),
                Ok(more) => Ok(acc + more),
            },
        }
    }
}

/// What analysis finds in a module: its import requests and the names
/// of its static `__all__`, or the first failure.
pub open spec fn analysis_of(
    name: Seq<char>,
    is_package: bool,
    path: Seq<char>,
    syn: ModuleSyntax,
) -> Result<(Seq<ReqView>, Seq<Seq<char>>), Seq<char>> {
    let ctx0: CtxView = (
        name,
        package_name_of(name, is_package),
        path,
        Seq::<(Seq<char>, Option<Seq<char>>)>::empty(),
        Seq::<(Seq<char>, Option<i32>)>::empty(),
    );
    let st = assigns_step((ctx0, Seq::<Seq<char>>::empty()), syn.assignments@);
    let al = aliases_of(syn.events@);
    match events_requests(syn.events@, syn.comments@, st.0, al, path) {
        Ok(r) => Ok((r, st.1)),
        Err(e) => Err(e),
    }
}

/// The view of a module analysis.
pub open spec fn analysis_view(a: ModuleAnalysis) -> (Seq<ReqView>, Seq<Seq<char>>) {
    (req_views(a.import_requests@), sviews(a.all_names@))
}

/// Analyzes a module: evaluates its top-level constants, finds the
/// aliases of `importlib` and `__import__`, reads its directives, and
/// collects the requests of its import statements and static dynamic
/// imports in walk order.
pub fn analyze_module(module_name: &str, is_package: bool, file_path: &str, syntax: &ModuleSyntax)
    -> (r: Result<ModuleAnalysis, String>)
    ensures
        match r {
            Ok(a) => analysis_of(module_name@, is_package, file_path@, *syntax) == Ok::<
                (Seq<ReqView>, Seq<Seq<char>>),
                Seq<char>,
            >(analysis_view(a)),
            Err(e) => analysis_of(module_name@, is_package, file_path@, *syntax) == Err::<
                (Seq<ReqView>, Seq<Seq<char>>),
                Seq<char>,
            >(e@),
        },
{
    let mut ctx = EvalContext {
        module_name: string_of(module_name),
        package_name: module_package_name(module_name, is_package),
        file_path: string_of(file_path),
        string_constants: Vec::new(),
        int_constants: Vec::new(),
    };
    assert(ctx_view(ctx).3 =~= Seq::<(Seq<char>, Option<Seq<char>>)>::empty());
    assert(ctx_view(ctx).4 =~= Seq::<(Seq<char>, Option<i32>)>::empty());
    let all_names = collect_top_level_constants(syntax.assignments.as_slice(), &mut ctx);
    let aliases = collect_aliases(syntax.events.as_slice());
    let skip = collect_directives(syntax.comments.as_slice(), true);
    let force = collect_directives(syntax.comments.as_slice(), false);
    let ghost cv = ctx_view(ctx);
    let ghost al = alias_view(aliases);
    let ghost cm = syntax.comments@;
    let evs = &syntax.events;
    let ghost whole = analysis_of(module_name@, is_package, file_path@, *syntax);
    assert(whole == match events_requests(syntax.events@, cm, cv, al, file_path@) {
        Ok(r) => Ok((r, sviews(all_names@))),
        Err(e) => Err(e),
    });
    let mut out: Vec<ImportRequest> = Vec::new();
    let mut i: usize = 0;
    assert(req_views(out@) =~= Seq::<ReqView>::empty());
    while i < evs.len()
        invariant
            i <= evs@.len(),
            whole == analysis_of(module_name@, is_package, file_path@, *syntax),
            whole == match events_requests(evs@, cm, cv, al, file_path@) {
                Ok(r) => Ok((r, sviews(all_names@))),
                Err(e) => Err(e),
            },
            cv == ctx_view(ctx),
            al == alias_view(aliases),
            cm == syntax.comments@,
            evs == syntax.events,
            forall|line: usize| directive_marks(skip, line) == marked(cm, true, line as int),
            forall|line: usize| directive_marks(force, line) == marked(cm, false, line as int),
            events_requests(evs@.take(i as int), cm, cv, al, file_path@) == Ok::<
                Seq<ReqView>,
                Seq<char>,
            >(req_views(out@)),
        decreases evs@.len() - i,
    {
        assert(evs@.take(i + 1).drop_last() =~= evs@.take(i as int));
        assert(evs@.take(i + 1).last() == evs@[i as int]);
        let ghost before = req_views(out@);
        match &evs[i] {
            SyntaxEvent::Import(line, info) => {
                if !is_skipped_import(*line, &skip) {
                    let forced = is_skipped_import(*line, &force);
                    let reqs = parse_import_statement(info, *line, forced);
                    append_requests(&mut out, reqs);
                }
            },
            SyntaxEvent::ImportFrom(line, info) => {
                if !is_skipped_import(*line, &skip) {
                    let forced = is_skipped_import(*line, &force);
                    match parse_from_import_statement(info, *line, forced) {
                        Ok(reqs) => append_requests(&mut out, reqs),
                        Err(e) => {
                            return Err(e);
                        },
                    }
                }
            },
            SyntaxEvent::Call(line, call) => {
                if !is_skipped_import(*line, &skip) {
                    let forced = is_skipped_import(*line, &force);
                    match parse_dynamic_import_call(call, *line, forced, &ctx, &aliases) {
                        Ok((reqs, handled)) => {
                            if handled {
                                append_requests(&mut out, reqs);
                            }
                        },
                        Err(err) => {
                            let mut msg = to_chars(file_path);
                            push_str(&mut msg, " line ");
                            let d = decimal_chars(*line as u128 + 1);
                            push_all(&mut msg, d.as_slice());
                            push_str(&mut msg, ": ");
                            push_str(&mut msg, err.as_str());
                            proof {
                                lemma_events_err(
                                    evs@,
                                    i as int,
                                    cm,
                                    cv,
                                    al,
                                    file_path@,
                                    before,
                                    msg@,
                                );
                            }
                            return Err(from_chars(msg.as_slice()));
                        },
                    }
                }
            },
        }
        assert(req_views(out@) =~= before + match event_requests(
            evs@[i as int],
            cm,
            cv,
            al,
            file_path@,
        ) {
            Ok(m) => m,
            Err(_) => Seq::<ReqView>::empty(),
        });
        i += 1;
    }
    assert(evs@.take(evs@.len() as int) =~= evs@);
    Ok(ModuleAnalysis { import_requests: out, all_names })
}

proof fn lemma_events_err(
    evs: Seq<SyntaxEvent>,
    i: int,
    cm: Seq<CommentInfo>,
    cv: CtxView,
    al: AliasView,
    path: Seq<char>,
    acc: Seq<ReqView>,
    e: Seq<char>,
)
    requires
        0 <= i < evs.len(),
        events_requests(evs.take(i), cm, cv, al, path) == Ok::<Seq<ReqView>, Seq<char>>(acc),
        event_requests(evs[i], cm, cv, al, path) == Err::<Seq<ReqView>, Seq<char>>(e),
    ensures
        events_requests(evs, cm, cv, al, path) == Err::<Seq<ReqView>, Seq<char>>(e),
    decreases evs.len() - i,
{
    if i == evs.len() - 1 {
        assert(evs.drop_last() =~= evs.take(i));
    } else {
        assert(evs.drop_last().take(i) =~= evs.take(i));
        assert(evs.drop_last()[i] == evs[i]);
        lemma_events_err(evs.drop_last(), i, cm, cv, al, path, acc, e);
    }
}

fn append_requests(out: &mut Vec<ImportRequest>, more: Vec<ImportRequest>)
    ensures
        req_views(final(out)@) == req_views(old(out)@) + req_views(more@),
{
    let mut more = more;
    let ghost mv = more@;
    out.append(&mut more);
    assert(req_views(out@) =~= req_views(old(out)@) + req_views(mv));
}


/// The analysis of a module from what the parser made of its source (see
/// `analysis_of`); a parse error fails the analysis, naming the file.
pub fn analyze_source(
    module_name: &str,
    is_package: bool,
    file_path: &str,
    parsed: Result<ModuleSyntax, String>,
) -> (r: Result<ModuleAnalysis, String>)
    ensures
        match parsed {
            Err(e) => r is Err && r->Err_0@ == "parse "@ + file_path@ + ": "@ + e@,
            Ok(syntax) => match r {
                Ok(a) => analysis_of(module_name@, is_package, file_path@, syntax) == Ok::<
                    (Seq<ReqView>, Seq<Seq<char>>),
                    Seq<char>,
                >(analysis_view(a)),
                Err(e) => analysis_of(module_name@, is_package, file_path@, syntax) == Err::<
                    (Seq<ReqView>, Seq<Seq<char>>),
                    Seq<char>,
                >(e@),
            },
        },
{
    match parsed {
        Err(e) => {
            let mut msg = to_chars("parse ");
            push_str(&mut msg, file_path);
            push_str(&mut msg, ": ");
            push_str(&mut msg, e.as_str());
            Err(from_chars(msg.as_slice()))
        },
        Ok(syntax) => analyze_module(module_name, is_package, file_path, &syntax),
    }
}

} // verus!
