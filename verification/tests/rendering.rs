use module_manager::ast::parse_root_ast;
use module_manager::command_options::view;
use module_manager::command_options::ViewOptions;
use module_manager::error::ModuleError;
use module_manager::fs_model::FsTree;
use module_manager::python_def::ArgType;
use module_manager::python_def::Attribute;
use module_manager::python_def::Class;
use module_manager::python_def::Method;
use module_manager::python_def::PythonDef;
use module_manager::py_ast::AnnAssignStmt;
use module_manager::py_ast::ArgDecl;
use module_manager::py_ast::ArgWithDefaultDecl;
use module_manager::py_ast::ArgumentsDecl;
use module_manager::py_ast::FunctionDefStmt;
use module_manager::py_ast::Span;
use module_manager::py_ast::StmtNode;
use module_manager::py_ast::TargetExpr;

// Argument rendering: positional, variadic-positional, keyword-only and
// variadic-keyword arguments in declaration order, with types and
// defaults verbatim.
#[test]
fn argument_rendering_order() {
    let path = String::from("mod.py");
    let arguments = vec![
        Attribute::new(
            path.clone(),
            String::from("a"),
            Some(String::from("int")),
            None,
            ArgType::Arg,
        ),
        Attribute::new(path.clone(), String::from("args"), None, None, ArgType::VarArg),
        Attribute::new(
            path.clone(),
            String::from("b"),
            Some(String::from("str")),
            Some(String::from("\"x\"")),
            ArgType::KeywordOnly,
        ),
        Attribute::new(path.clone(), String::from("kwargs"), None, None, ArgType::Keyword),
    ];
    let method = Method::new(path.clone(), String::from("f"), None, arguments);
    assert_eq!(
        method.definition_code,
        "def f(a: int, *args, b: str = \"x\", **kwargs):\n"
    );

    let arguments = vec![
        Attribute::new(
            path.clone(),
            String::from("a"),
            Some(String::from("int")),
            None,
            ArgType::Arg,
        ),
        Attribute::new(path.clone(), String::from("args"), None, None, ArgType::VarArg),
        Attribute::new(
            path.clone(),
            String::from("b"),
            Some(String::from("str")),
            Some(String::from("\"x\"")),
            ArgType::KeywordOnly,
        ),
        Attribute::new(path.clone(), String::from("kwargs"), None, None, ArgType::Keyword),
    ];
    let mut method = Method::new(path, String::from("f"), None, arguments);
    method.set_async(true);
    assert_eq!(
        method.definition_code,
        "async def f(a: int, *args, b: str = \"x\", **kwargs):\n"
    );
}

#[test]
fn definition_kinds() {
    let path = String::from("mod.py");
    let attribute = Attribute::new(path.clone(), String::from("x"), None, None, ArgType::Not);
    assert_eq!(attribute.get_type(), "ARGUMENT");
    let method = Method::new(path.clone(), String::from("f"), None, Vec::new());
    assert_eq!(method.get_type(), "METHOD");
    let class = Class::new(path, String::from("C"), Vec::new(), Vec::new());
    assert_eq!(class.get_type(), "CLASS");
}

#[test]
fn class_rendering_with_methods() {
    let path = String::from("mod.py");
    let method = Method::new(path.clone(), String::from("run"), None, Vec::new());
    let class = Class::new(
        path,
        String::from("Runner"),
        vec![method],
        vec![String::from("Base"), String::from("Other")],
    );
    assert_eq!(
        class.definition_code,
        "class Runner(Base, Other):\n    def run():\n\n"
    );
}

// Extraction slices every fragment verbatim from the source text: the
// annotated assignment keeps its annotation and value, and the return
// type is trimmed of whitespace and trailing delimiters.
#[test]
fn extraction_keeps_fragments_verbatim() {
    let code = String::from("v: int = 7\ndef g(n: int = 2) ->  int :\n    pass\n");
    let path = String::from("mod.py");
    let ast = vec![
        StmtNode::AnnAssign(AnnAssignStmt {
            target: TargetExpr::Named(String::from("v")),
            annotation: Span { start: 3, end: 6 },
            value: Some(Span { start: 9, end: 10 }),
        }),
        StmtNode::FunctionDef(FunctionDefStmt {
            name: String::from("g"),
            args: ArgumentsDecl {
                args: vec![ArgWithDefaultDecl {
                    def: ArgDecl {
                        name: String::from("n"),
                        annotation: Some(Span { start: 20, end: 23 }),
                    },
                    default: Some(Span { start: 26, end: 27 }),
                }],
                vararg: None,
                kwonlyargs: Vec::new(),
                kwarg: None,
            },
            returns: Some(Span { start: 32, end: 37 }),
        }),
    ];
    let (classes, functions, vars) = parse_root_ast(&ast, &code, &path).unwrap();
    assert!(classes.is_empty());
    assert_eq!(vars.len(), 1);
    assert_eq!(vars[0].definition_code, "v: int = 7");
    assert_eq!(functions.len(), 1);
    assert_eq!(functions[0].definition_code, "def g(n: int = 2) -> int:\n");
}

#[test]
fn error_messages() {
    assert_eq!(
        ModuleError::IllegalOperation.message(),
        "Files cannot contain other modules"
    );
    assert_eq!(ModuleError::InvalidPath.message(), "Invalid path");
    assert_eq!(ModuleError::IoFailure.message(), "Could not read file");
}

#[test]
fn reading_a_missing_file_fails() {
    let fs = FsTree::new();
    assert_eq!(fs.read_file("nowhere.py").unwrap_err(), ModuleError::IoFailure);
}

#[test]
fn view_renders_the_tree() {
    let mut fs = FsTree::new();
    fs.write_file("solo.py", String::from("x = 1\n"));
    let rendered = view(
        &ViewOptions { module: Some(String::from("solo")), code: false },
        &fs,
    )
    .unwrap();
    assert_eq!(rendered, "|--[f] solo\n");
}

#[test]
fn view_renders_definition_code() {
    let mut fs = FsTree::new();
    fs.write_file("solo2.py", String::from("def f():\n    pass\n"));
    let ast = vec![StmtNode::FunctionDef(FunctionDefStmt {
        name: String::from("f"),
        args: ArgumentsDecl {
            args: Vec::new(),
            vararg: None,
            kwonlyargs: Vec::new(),
            kwarg: None,
        },
        returns: None,
    })];
    fs.set_ast("solo2.py", ast);
    let rendered = view(
        &ViewOptions { module: Some(String::from("solo2")), code: true },
        &fs,
    )
    .unwrap();
    assert_eq!(rendered, "|--[f] solo2\n|  def f():\n");
}
