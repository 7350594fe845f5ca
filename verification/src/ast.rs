//! The symbol extractor: walks a syntax tree once and produces the ordered
//! class, function and attribute definitions of one source file, slicing
//! every type, default-value and base-class fragment verbatim out of the
//! original text.

use vstd::prelude::*;
use vstd::string::*;

use crate::error::ModuleError;
use crate::py_ast::AnnAssignStmt;
use crate::py_ast::ArgDecl;
use crate::py_ast::ArgWithDefaultDecl;
use crate::py_ast::ArgumentsDecl;
use crate::py_ast::AssignStmt;
use crate::py_ast::ClassBodyStmt;
use crate::py_ast::ClassDefStmt;
use crate::py_ast::FunctionDefStmt;
use crate::py_ast::Span;
use crate::py_ast::StmtNode;
use crate::py_ast::TargetExpr;
use crate::py_ast::ast_ok;
use crate::py_ast::spec_slice;
use crate::py_ast::spec_slice_opt;
use crate::python_def::ArgType;
use crate::python_def::Attribute;
use crate::python_def::Class;
use crate::python_def::Method;
use crate::python_def::PythonDef;
use crate::text::trim_return_type;
use crate::text::trim_return_type_spec;

verus! {

/// The attribute `r` is the extraction of an argument or variable with the
/// given name, fragment spans and role.
pub open spec fn is_extracted_arg(
    r: Attribute,
    name: Seq<char>,
    annotation: Option<Span>,
    default: Option<Span>,
    arg_type: ArgType,
    code: Seq<char>,
    path: Seq<char>,
) -> bool {
    &&& r.path@ == path
    &&& r.name@ == name
    &&& r.type_view() == spec_slice_opt(code, annotation)
    &&& r.default_view() == spec_slice_opt(code, default)
    &&& r.arg_type == arg_type
    &&& r.wf()
}

/// One element of `o`, or nothing.
pub open spec fn opt_count<A>(o: Option<A>) -> int {
    match o {
        Some(_) => 1,
        None => 0,
    }
}

/// The attributes `args` are the extraction of the argument list `d`, in
/// the fixed order: positional, variadic-positional, keyword-only,
/// variadic-keyword.
pub open spec fn is_extracted_args(
    args: Seq<Attribute>,
    d: ArgumentsDecl,
    code: Seq<char>,
    path: Seq<char>,
) -> bool {
    let n1 = d.args@.len() as int;
    let n2 = n1 + opt_count(d.vararg);
    let n3 = n2 + d.kwonlyargs@.len();
    &&& args.len() == n3 + opt_count(d.kwarg)
    &&& forall|i: int|
        0 <= i < n1 ==> is_extracted_arg(
            #[trigger] args[i],
            d.args@[i].def.name@,
            d.args@[i].def.annotation,
            d.args@[i].default,
            ArgType::Arg,
            code,
            path,
        )
    &&& match d.vararg {
        Some(v) => is_extracted_arg(args[n1], v.name@, v.annotation, None, ArgType::VarArg, code, path),
        None => true,
    }
    &&& forall|j: int|
        0 <= j < d.kwonlyargs@.len() ==> is_extracted_arg(
            #[trigger] args[n2 + j],
            d.kwonlyargs@[j].def.name@,
            d.kwonlyargs@[j].def.annotation,
            d.kwonlyargs@[j].default,
            ArgType::KeywordOnly,
            code,
            path,
        )
    &&& match d.kwarg {
        Some(k) => is_extracted_arg(args[n3], k.name@, k.annotation, None, ArgType::Keyword, code, path),
        None => true,
    }
}

/// The method `m` is the extraction of the function definition `f`.
pub open spec fn is_extracted_method(
    m: Method,
    f: FunctionDefStmt,
    is_async: bool,
    code: Seq<char>,
    path: Seq<char>,
) -> bool {
    &&& m.path@ == path
    &&& m.name@ == f.name@
    &&& m.is_async == is_async
    &&& m.return_type_view() == (match f.returns {
        Some(sp) => Some(trim_return_type_spec(spec_slice(code, sp))),
        None => None::<Seq<char>>,
    })
    &&& is_extracted_args(m.arguments@, f.args, code, path)
    &&& m.wf()
}

/// The function statements of a class body, with their async flags, in
/// declaration order.
pub open spec fn method_stmts(body: Seq<ClassBodyStmt>) -> Seq<(FunctionDefStmt, bool)>
    decreases body.len(),
{
    if body.len() == 0 {
        Seq::<(FunctionDefStmt, bool)>::empty()
    } else {
        method_stmts(body.drop_last()) + (match body.last() {
            ClassBodyStmt::FunctionDef(f) => seq![(f, false)],
            ClassBodyStmt::AsyncFunctionDef(f) => seq![(f, true)],
            ClassBodyStmt::Other => Seq::<(FunctionDefStmt, bool)>::empty(),
        })
    }
}

/// The methods `ms` are the extraction of the function statements `fs`.
pub open spec fn is_extracted_methods(
    ms: Seq<Method>,
    fs: Seq<(FunctionDefStmt, bool)>,
    code: Seq<char>,
    path: Seq<char>,
) -> bool {
    &&& ms.len() == fs.len()
    &&& forall|i: int|
        0 <= i < ms.len() ==> is_extracted_method(#[trigger] ms[i], fs[i].0, fs[i].1, code, path)
}

/// The class `r` is the extraction of the class definition `c`.
pub open spec fn is_extracted_class(
    r: Class,
    c: ClassDefStmt,
    code: Seq<char>,
    path: Seq<char>,
) -> bool {
    &&& r.path@ == path
    &&& r.name@ == c.name@
    &&& r.bases_view() == c.bases@.map_values(|s: Span| spec_slice(code, s))
    &&& is_extracted_methods(r.methods@, method_stmts(c.body@), code, path)
    &&& r.wf()
}

/// The names of the plain-name targets of an assignment, in order.
pub open spec fn named_targets(ts: Seq<TargetExpr>) -> Seq<Seq<char>>
    decreases ts.len(),
{
    if ts.len() == 0 {
        Seq::<Seq<char>>::empty()
    } else {
        named_targets(ts.drop_last()) + (match ts.last() {
            TargetExpr::Named(n) => seq![n@],
            TargetExpr::Unnamed => Seq::<Seq<char>>::empty(),
        })
    }
}

/// What one extracted variable attribute should hold: its name and its
/// fragments, already sliced out of the source.
pub ghost struct AttrShape {
    pub name: Seq<char>,
    pub type_: Option<Seq<char>>,
    pub default: Option<Seq<char>>,
}

/// The attribute `at` matches the shape `sh` as a variable of the file at
/// `path`.
pub open spec fn is_shaped_attr(at: Attribute, sh: AttrShape, path: Seq<char>) -> bool {
    &&& at.path@ == path
    &&& at.name@ == sh.name
    &&& at.type_view() == sh.type_
    &&& at.default_view() == sh.default
    &&& at.arg_type is Not
    &&& at.wf()
}

/// The attributes `vs` match the shapes `shapes`, element by element.
pub open spec fn matches_shapes(vs: Seq<Attribute>, shapes: Seq<AttrShape>, path: Seq<char>) -> bool {
    &&& vs.len() == shapes.len()
    &&& forall|i: int| 0 <= i < vs.len() ==> is_shaped_attr(#[trigger] vs[i], shapes[i], path)
}

/// The shapes of the attributes a simple assignment yields: one per
/// plain-name target, all sharing the right-hand side as default.
pub open spec fn assign_shapes(a: AssignStmt, code: Seq<char>) -> Seq<AttrShape> {
    named_targets(a.targets@).map_values(
        |n: Seq<char>|
            AttrShape {
                name: n,
                type_: None::<Seq<char>>,
                default: Some(spec_slice(code, a.value)),
            },
    )
}

/// The shapes of the attributes an annotated assignment yields: one when
/// its target is a plain name, none otherwise.
pub open spec fn ann_shapes(a: AnnAssignStmt, code: Seq<char>) -> Seq<AttrShape> {
    match a.target {
        TargetExpr::Named(n) => seq![
            AttrShape {
                name: n@,
                type_: Some(spec_slice(code, a.annotation)),
                default: spec_slice_opt(code, a.value),
            },
        ],
        TargetExpr::Unnamed => Seq::<AttrShape>::empty(),
    }
}

/// The class statements of a file, in order.
pub open spec fn class_stmts(ast: Seq<StmtNode>) -> Seq<ClassDefStmt>
    decreases ast.len(),
{
    if ast.len() == 0 {
        Seq::<ClassDefStmt>::empty()
    } else {
        class_stmts(ast.drop_last()) + (match ast.last() {
            StmtNode::ClassDef(c) => seq![c],
            _ => Seq::<ClassDefStmt>::empty(),
        })
    }
}

/// The top-level function statements of a file, with their async flags,
/// in order.
pub open spec fn func_stmts(ast: Seq<StmtNode>) -> Seq<(FunctionDefStmt, bool)>
    decreases ast.len(),
{
    if ast.len() == 0 {
        Seq::<(FunctionDefStmt, bool)>::empty()
    } else {
        func_stmts(ast.drop_last()) + (match ast.last() {
            StmtNode::FunctionDef(f) => seq![(f, false)],
            StmtNode::AsyncFunctionDef(f) => seq![(f, true)],
            _ => Seq::<(FunctionDefStmt, bool)>::empty(),
        })
    }
}

/// The shapes of all variable attributes of a file, in order.
pub open spec fn attr_shapes(ast: Seq<StmtNode>, code: Seq<char>) -> Seq<AttrShape>
    decreases ast.len(),
{
    if ast.len() == 0 {
        Seq::<AttrShape>::empty()
    } else {
        attr_shapes(ast.drop_last(), code) + (match ast.last() {
            StmtNode::Assign(a) => assign_shapes(a, code),
            StmtNode::AnnAssign(a) => ann_shapes(a, code),
            _ => Seq::<AttrShape>::empty(),
        })
    }
}

/// The classes `cs` are the extraction of the class statements of `ast`.
pub open spec fn is_extracted_classes(
    cs: Seq<Class>,
    ast: Seq<StmtNode>,
    code: Seq<char>,
    path: Seq<char>,
) -> bool {
    &&& cs.len() == class_stmts(ast).len()
    &&& forall|i: int|
        0 <= i < cs.len() ==> is_extracted_class(#[trigger] cs[i], class_stmts(ast)[i], code, path)
}

/// The whole result of extracting one file: classes, functions and
/// variables, each list in declaration order.
pub open spec fn is_extracted_root(
    cs: Seq<Class>,
    fs: Seq<Method>,
    vs: Seq<Attribute>,
    ast: Seq<StmtNode>,
    code: Seq<char>,
    path: Seq<char>,
) -> bool {
    &&& is_extracted_classes(cs, ast, code, path)
    &&& is_extracted_methods(fs, func_stmts(ast), code, path)
    &&& matches_shapes(vs, attr_shapes(ast, code), path)
}

/// Slices the characters of `s` out of `code`.
fn slice_span(code: &String, s: Span) -> (r: String)
    requires
        s.ok(code@.len()),
    ensures
        r@ == spec_slice(code@, s),
{
    let _n = code.as_str().unicode_len();
    code.as_str().substring_char(s.start, s.end).to_owned()
}

/// Slices an optional fragment out of `code`.
fn slice_opt(code: &String, s: &Option<Span>) -> (r: Option<String>)
    requires
        crate::py_ast::opt_span_ok(*s, code@.len()),
    ensures
        (match r {
            Some(ref x) => Some(x@),
            None => None,
        }) == spec_slice_opt(code@, *s),
{
    match s {
        Some(sp) => Some(slice_span(code, *sp)),
        None => None,
    }
}

/// Extracts one argument that carries no default value.
fn parse_arg(arg: &ArgDecl, original_code: &String, arg_type: ArgType, path: &String) -> (r:
    Attribute)
    requires
        arg.ok(original_code@.len()),
    ensures
        is_extracted_arg(r, arg.name@, arg.annotation, None, arg_type, original_code@, path@),
{
    let type_ = slice_opt(original_code, &arg.annotation);
    Attribute::new(path.clone(), arg.name.clone(), type_, None, arg_type)
}

/// Extracts one argument that may carry a default value.
fn parse_arg_with_default(
    arg: &ArgWithDefaultDecl,
    original_code: &String,
    arg_type: ArgType,
    path: &String,
) -> (r: Attribute)
    requires
        arg.ok(original_code@.len()),
    ensures
        is_extracted_arg(
            r,
            arg.def.name@,
            arg.def.annotation,
            arg.default,
            arg_type,
            original_code@,
            path@,
        ),
{
    let type_ = slice_opt(original_code, &arg.def.annotation);
    let default_value = slice_opt(original_code, &arg.default);
    Attribute::new(path.clone(), arg.def.name.clone(), type_, default_value, arg_type)
}

/// Extracts a function definition: its arguments in the fixed order
/// positional, variadic-positional, keyword-only, variadic-keyword, and
/// its trimmed return-type fragment.
fn parse_function_def(function_def: &FunctionDefStmt, original_code: &String, path: &String) -> (r:
    Method)
    requires
        function_def.ok(original_code@.len()),
    ensures
        is_extracted_method(r, *function_def, false, original_code@, path@),
{
    let d = &function_def.args;
    let mut arguments: Vec<Attribute> = Vec::new();
    let mut i: usize = 0;
    while i < d.args.len()
        invariant
            function_def.ok(original_code@.len()),
            d == &function_def.args,
            i <= d.args@.len(),
            arguments@.len() == i,
            forall|k: int|
                0 <= k < i ==> is_extracted_arg(
                    #[trigger] arguments@[k],
                    d.args@[k].def.name@,
                    d.args@[k].def.annotation,
                    d.args@[k].default,
                    ArgType::Arg,
                    original_code@,
                    path@,
                ),
        decreases d.args@.len() - i,
    {
        let a = parse_arg_with_default(&d.args[i], original_code, ArgType::Arg, path);
        arguments.push(a);
        i += 1;
    }
    if let Some(ref v) = d.vararg {
        let a = parse_arg(v, original_code, ArgType::VarArg, path);
        arguments.push(a);
    }
    let ghost n2 = arguments@.len() as int;
    let mut j: usize = 0;
    let base = arguments.len();
    while j < d.kwonlyargs.len()
        invariant
            function_def.ok(original_code@.len()),
            d == &function_def.args,
            j <= d.kwonlyargs@.len(),
            base == n2,
            n2 == d.args@.len() + opt_count(d.vararg),
            arguments@.len() == n2 + j,
            forall|k: int|
                0 <= k < d.args@.len() ==> is_extracted_arg(
                    #[trigger] arguments@[k],
                    d.args@[k].def.name@,
                    d.args@[k].def.annotation,
                    d.args@[k].default,
                    ArgType::Arg,
                    original_code@,
                    path@,
                ),
            match d.vararg {
                Some(v) => is_extracted_arg(
                    arguments@[d.args@.len() as int],
                    v.name@,
                    v.annotation,
                    None,
                    ArgType::VarArg,
                    original_code@,
                    path@,
                ),
                None => true,
            },
            forall|k: int|
                0 <= k < j ==> is_extracted_arg(
                    #[trigger] arguments@[n2 + k],
                    d.kwonlyargs@[k].def.name@,
                    d.kwonlyargs@[k].def.annotation,
                    d.kwonlyargs@[k].default,
                    ArgType::KeywordOnly,
                    original_code@,
                    path@,
                ),
        decreases d.kwonlyargs@.len() - j,
    {
        let a = parse_arg_with_default(&d.kwonlyargs[j], original_code, ArgType::KeywordOnly, path);
        arguments.push(a);
        j += 1;
    }
    if let Some(ref k) = d.kwarg {
        let a = parse_arg(k, original_code, ArgType::Keyword, path);
        arguments.push(a);
    }
    let return_type = match &function_def.returns {
        Some(sp) => {
            let frag = slice_span(original_code, *sp);
            Some(trim_return_type(frag.as_str()))
        },
        None => None,
    };
    assert(is_extracted_args(arguments@, function_def.args, original_code@, path@));
    proof {
        let d_ = function_def.args;
        let n1 = d_.args@.len() as int;
        let n2 = n1 + opt_count(d_.vararg);
        let n3 = n2 + d_.kwonlyargs@.len();
        assert forall|k: int| 0 <= k < arguments@.len() implies (#[trigger] arguments@[k]).wf()
        by {
            if k < n1 {
            } else if k < n2 {
                assert(k == n1);
            } else if k < n3 {
                assert(arguments@[n2 + (k - n2)].wf());
            } else {
                assert(k == n3);
            }
        }
    }
    let m = Method::new(path.clone(), function_def.name.clone(), return_type, arguments);
    m
}

/// Extracts a class definition: its base-class fragments and its methods,
/// asynchronous ones marked.
fn parse_class_def(class_def: &ClassDefStmt, original_code: &String, path: &String) -> (r: Class)
    requires
        class_def.ok(original_code@.len()),
    ensures
        is_extracted_class(r, *class_def, original_code@, path@),
{
    let mut bases: Vec<String> = Vec::new();
    let mut i: usize = 0;
    while i < class_def.bases.len()
        invariant
            class_def.ok(original_code@.len()),
            i <= class_def.bases@.len(),
            bases@.len() == i,
            forall|k: int|
                0 <= k < i ==> (#[trigger] bases@[k])@ == spec_slice(
                    original_code@,
                    class_def.bases@[k],
                ),
        decreases class_def.bases@.len() - i,
    {
        let b = slice_span(original_code, class_def.bases[i]);
        bases.push(b);
        i += 1;
    }
    let mut methods: Vec<Method> = Vec::new();
    let mut j: usize = 0;
    while j < class_def.body.len()
        invariant
            class_def.ok(original_code@.len()),
            j <= class_def.body@.len(),
            is_extracted_methods(
                methods@,
                method_stmts(class_def.body@.take(j as int)),
                original_code@,
                path@,
            ),
        decreases class_def.body@.len() - j,
    {
        proof {
            assert(class_def.body@.take(j + 1).drop_last() =~= class_def.body@.take(j as int));
            assert(class_def.body@.take(j + 1).last() == class_def.body@[j as int]);
        }
        match &class_def.body[j] {
            ClassBodyStmt::FunctionDef(f) => {
                let m = parse_function_def(f, original_code, path);
                methods.push(m);
            },
            ClassBodyStmt::AsyncFunctionDef(f) => {
                let mut m = parse_function_def(f, original_code, path);
                m.set_async(true);
                methods.push(m);
            },
            ClassBodyStmt::Other => {},
        }
        j += 1;
    }
    assert(class_def.body@.take(class_def.body@.len() as int) =~= class_def.body@);
    let c = Class::new(path.clone(), class_def.name.clone(), methods, bases);
    assert(c.bases_view() =~= class_def.bases@.map_values(
        |s: Span| spec_slice(original_code@, s),
    ));
    c
}

/// Extracts the attributes of a simple assignment: one per plain-name
/// target, each carrying the right-hand side as its default fragment.
fn parse_assign(assign: &AssignStmt, original_code: &String, path: &String) -> (r: Vec<Attribute>)
    requires
        assign.ok(original_code@.len()),
    ensures
        matches_shapes(r@, assign_shapes(*assign, original_code@), path@),
{
    let value = slice_span(original_code, assign.value);
    let mut attributes: Vec<Attribute> = Vec::new();
    let mut i: usize = 0;
    while i < assign.targets.len()
        invariant
            assign.ok(original_code@.len()),
            i <= assign.targets@.len(),
            value@ == spec_slice(original_code@, assign.value),
            matches_shapes(
                attributes@,
                named_targets(assign.targets@.take(i as int)).map_values(
                    |n: Seq<char>|
                        AttrShape {
                            name: n,
                            type_: None::<Seq<char>>,
                            default: Some(spec_slice(original_code@, assign.value)),
                        },
                ),
                path@,
            ),
        decreases assign.targets@.len() - i,
    {
        proof {
            assert(assign.targets@.take(i + 1).drop_last() =~= assign.targets@.take(i as int));
            assert(assign.targets@.take(i + 1).last() == assign.targets@[i as int]);
        }
        match &assign.targets[i] {
            TargetExpr::Named(n) => {
                let at = Attribute::new(
                    path.clone(),
                    n.clone(),
                    None,
                    Some(value.clone()),
                    ArgType::Not,
                );
                attributes.push(at);
            },
            TargetExpr::Unnamed => {},
        }
        i += 1;
    }
    assert(assign.targets@.take(assign.targets@.len() as int) =~= assign.targets@);
    attributes
}

/// Extracts the attribute of an annotated assignment when its target is a
/// plain name; yields nothing otherwise.
fn parse_ann_assign(ann_assign: &AnnAssignStmt, original_code: &String, path: &String) -> (r:
    Option<Attribute>)
    requires
        ann_assign.ok(original_code@.len()),
    ensures
        matches_shapes(
            (match r {
                Some(at) => seq![at],
                None => Seq::<Attribute>::empty(),
            }),
            ann_shapes(*ann_assign, original_code@),
            path@,
        ),
{
    match &ann_assign.target {
        TargetExpr::Named(n) => {
            let type_ = slice_span(original_code, ann_assign.annotation);
            let value = slice_opt(original_code, &ann_assign.value);
            Some(Attribute::new(path.clone(), n.clone(), Some(type_), value, ArgType::Not))
        },
        TargetExpr::Unnamed => None,
    }
}

/// Walks the top-level statements of one parsed file and extracts its
/// classes, functions and variables, each list in declaration order.
/// Statement kinds the extractor does not know are ignored.
pub fn parse_root_ast(ast: &Vec<StmtNode>, original_code: &String, path: &String) -> (r: Result<
    (Vec<Class>, Vec<Method>, Vec<Attribute>),
    ModuleError,
>)
    requires
        ast_ok(ast@, original_code@.len()),
    ensures
        r matches Ok(t) && is_extracted_root(t.0@, t.1@, t.2@, ast@, original_code@, path@),
{
    let mut classes: Vec<Class> = Vec::new();
    let mut functions: Vec<Method> = Vec::new();
    let mut attributes: Vec<Attribute> = Vec::new();
    let mut i: usize = 0;
    while i < ast.len()
        invariant
            ast_ok(ast@, original_code@.len()),
            i <= ast@.len(),
            is_extracted_classes(classes@, ast@.take(i as int), original_code@, path@),
            is_extracted_methods(
                functions@,
                func_stmts(ast@.take(i as int)),
                original_code@,
                path@,
            ),
            matches_shapes(
                attributes@,
                attr_shapes(ast@.take(i as int), original_code@),
                path@,
            ),
        decreases ast@.len() - i,
    {
        proof {
            assert(ast@.take(i + 1).drop_last() =~= ast@.take(i as int));
            assert(ast@.take(i + 1).last() == ast@[i as int]);
            assert(ast@[i as int].ok(original_code@.len()));
        }
        match &ast[i] {
            StmtNode::ClassDef(c) => {
                let cl = parse_class_def(c, original_code, path);
                classes.push(cl);
                proof {
                    assert(class_stmts(ast@.take(i + 1)) =~= class_stmts(ast@.take(i as int))
                        + seq![*c]);
                }
            },
            StmtNode::FunctionDef(f) => {
                let m = parse_function_def(f, original_code, path);
                functions.push(m);
                proof {
                    assert(func_stmts(ast@.take(i + 1)) =~= func_stmts(ast@.take(i as int))
                        + seq![(*f, false)]);
                }
            },
            StmtNode::AsyncFunctionDef(f) => {
                let mut m = parse_function_def(f, original_code, path);
                m.set_async(true);
                functions.push(m);
                proof {
                    assert(func_stmts(ast@.take(i + 1)) =~= func_stmts(ast@.take(i as int))
                        + seq![(*f, true)]);
                }
            },
            StmtNode::Assign(a) => {
                let mut vs = parse_assign(a, original_code, path);
                let ghost old_attrs = attributes@;
                let ghost new_vs = vs@;
                attributes.append(&mut vs);
                proof {
                    assert(attr_shapes(ast@.take(i + 1), original_code@) =~= attr_shapes(
                        ast@.take(i as int),
                        original_code@,
                    ) + assign_shapes(*a, original_code@));
                    lemma_matches_shapes_concat(
                        old_attrs,
                        new_vs,
                        attr_shapes(ast@.take(i as int), original_code@),
                        assign_shapes(*a, original_code@),
                        path@,
                    );
                }
            },
            StmtNode::AnnAssign(a) => {
                let ghost old_attrs = attributes@;
                let ghost shapes_step = ann_shapes(*a, original_code@);
                match parse_ann_assign(a, original_code, path) {
                    Some(x) => {
                        let ghost one = seq![x];
                        attributes.push(x);
                        proof {
                            assert(attributes@ =~= old_attrs + one);
                            lemma_matches_shapes_concat(
                                old_attrs,
                                one,
                                attr_shapes(ast@.take(i as int), original_code@),
                                shapes_step,
                                path@,
                            );
                        }
                    },
                    None => {
                        proof {
                            assert(attributes@ =~= old_attrs + Seq::<Attribute>::empty());
                            lemma_matches_shapes_concat(
                                old_attrs,
                                Seq::<Attribute>::empty(),
                                attr_shapes(ast@.take(i as int), original_code@),
                                shapes_step,
                                path@,
                            );
                        }
                    },
                }
                proof {
                    assert(attr_shapes(ast@.take(i + 1), original_code@) =~= attr_shapes(
                        ast@.take(i as int),
                        original_code@,
                    ) + shapes_step);
                }
            },
            StmtNode::Other => {
                proof {
                    assert(class_stmts(ast@.take(i + 1)) =~= class_stmts(ast@.take(i as int)));
                    assert(func_stmts(ast@.take(i + 1)) =~= func_stmts(ast@.take(i as int)));
                    assert(attr_shapes(ast@.take(i + 1), original_code@) =~= attr_shapes(
                        ast@.take(i as int),
                        original_code@,
                    ));
                }
            },
        }
        i += 1;
    }
    assert(ast@.take(ast@.len() as int) =~= ast@);
    Ok((classes, functions, attributes))
}

/// Element-wise matching is preserved by concatenation.
proof fn lemma_matches_shapes_concat(
    v1: Seq<Attribute>,
    v2: Seq<Attribute>,
    s1: Seq<AttrShape>,
    s2: Seq<AttrShape>,
    path: Seq<char>,
)
    requires
        matches_shapes(v1, s1, path),
        matches_shapes(v2, s2, path),
    ensures
        matches_shapes(v1 + v2, s1 + s2, path),
{
    assert forall|i: int| 0 <= i < (v1 + v2).len() implies is_shaped_attr(
        #[trigger] (v1 + v2)[i],
        (s1 + s2)[i],
        path,
    ) by {
        if i < v1.len() {
            assert((v1 + v2)[i] == v1[i]);
            assert((s1 + s2)[i] == s1[i]);
        } else {
            assert((v1 + v2)[i] == v2[i - v1.len()]);
            assert((s1 + s2)[i] == s2[i - s1.len()]);
        }
    }
}

} // verus!
