use module_manager::command_options::add;
use module_manager::command_options::find;
use module_manager::command_options::find_in_module;
use module_manager::command_options::view;
use module_manager::command_options::FindOptions;
use module_manager::command_options::ViewOptions;
use module_manager::command_options::top_level_modules;
use module_manager::command_options::AddOptions;
use module_manager::error::ModuleError;
use module_manager::fs_model::FsTree;
use module_manager::module_manager::module_2_path;
use module_manager::module_manager::path_2_module;
use module_manager::module_manager::ModuleManager;
use module_manager::module_manager::ModuleType;
use module_manager::py_ast::ArgumentsDecl;
use module_manager::py_ast::AssignStmt;
use module_manager::py_ast::ClassBodyStmt;
use module_manager::py_ast::ClassDefStmt;
use module_manager::py_ast::FunctionDefStmt;
use module_manager::py_ast::Span;
use module_manager::py_ast::StmtNode;
use module_manager::py_ast::TargetExpr;

fn no_args() -> ArgumentsDecl {
    ArgumentsDecl {
        args: Vec::new(),
        vararg: None,
        kwonlyargs: Vec::new(),
        kwarg: None,
    }
}

// Round trip: converting a dotted name to its backing path and back
// yields the same name, for both kinds.
#[test]
fn path_name_round_trip() {
    let path = module_2_path("a.b.c", &ModuleType::File).unwrap();
    assert_eq!(path, "a/b/c.py");
    assert_eq!(path_2_module(&path).unwrap(), "a.b.c");

    let path = module_2_path("a.b.c", &ModuleType::Directory).unwrap();
    assert_eq!(path, "a/b/c/__init__.py");
    assert_eq!(path_2_module(&path).unwrap(), "a.b.c");

    let path = module_2_path("single", &ModuleType::File).unwrap();
    assert_eq!(path, "single.py");
    assert_eq!(path_2_module(&path).unwrap(), "single");
}

// A path with no source-file component cannot be converted to a name.
#[test]
fn path_without_source_file_is_invalid() {
    assert_eq!(path_2_module("a/b/c").unwrap_err(), ModuleError::InvalidPath);
    assert_eq!(
        ModuleError::InvalidPath.message(),
        "Invalid path"
    );
}

// Building twice produces no error and no content change the second time.
#[test]
fn build_is_idempotent() {
    let mut fs = FsTree::new();
    let module_manager =
        ModuleManager::new("pkg.util", ModuleType::File, false, &mut fs).unwrap();
    module_manager.build(&mut fs).unwrap();
    assert!(fs.file_exists("pkg/util.py"));
    fs.write_file("pkg/util.py", String::from("x = 1"));
    module_manager.build(&mut fs).unwrap();
    assert_eq!(fs.read_file("pkg/util.py").unwrap(), "x = 1");
    assert!(fs.dir_exists("pkg"));
}

// Adding a leaf module creates its empty backing file; a query that
// matches only the module's name returns the node headers with no
// matched symbol lines.
#[test]
fn add_leaf_module_scenario() {
    let mut fs = FsTree::new();
    add(
        &AddOptions { module: String::from("pkg"), is_file: false, contains: None },
        &mut fs,
    )
    .unwrap();
    add(
        &AddOptions { module: String::from("pkg.util"), is_file: true, contains: None },
        &mut fs,
    )
    .unwrap();
    assert!(fs.file_exists("pkg/util.py"));
    assert_eq!(fs.read_file("pkg/util.py").unwrap(), "");

    let displays = find_in_module(
        &String::from("util"),
        &String::from("pkg"),
        false,
        true,
        true,
        true,
        &fs,
    )
    .unwrap();
    assert_eq!(
        displays,
        vec![
            String::from("|--[d] pkg\n"),
            String::from("|  |--[f] pkg/util.py\n"),
            String::from("|  *\n"),
        ]
    );
}

// Moving a leaf module renames its file and rewrites references to its
// dotted name in other files.
#[test]
fn move_leaf_module_scenario() {
    let mut fs = FsTree::new();
    add(
        &AddOptions { module: String::from("pkg"), is_file: false, contains: None },
        &mut fs,
    )
    .unwrap();
    add(
        &AddOptions { module: String::from("pkg.a"), is_file: true, contains: None },
        &mut fs,
    )
    .unwrap();
    fs.write_file("other.py", String::from("import pkg.a\n"));

    let mut module_manager =
        ModuleManager::new("pkg.a", ModuleType::File, false, &mut fs).unwrap();
    module_manager.mv("pkg.b", &mut fs).unwrap();

    assert!(!fs.file_exists("pkg/a.py"));
    assert!(fs.file_exists("pkg/b.py"));
    assert_eq!(fs.read_file("other.py").unwrap(), "import pkg.b\n");
}

// Adding a child to a leaf module fails with IllegalOperation and leaves
// the project tree unchanged.
#[test]
fn add_child_to_leaf_scenario() {
    let mut fs = FsTree::new();
    let mut module_manager =
        ModuleManager::new("leafmod", ModuleType::File, true, &mut fs).unwrap();
    let files_before = fs.files.len();
    let dirs_before = fs.dirs.len();

    let result = module_manager.add_sub_module("child", ModuleType::File, true, &mut fs);
    assert_eq!(result.unwrap_err(), ModuleError::IllegalOperation);
    assert_eq!(fs.files.len(), files_before);
    assert_eq!(fs.dirs.len(), dirs_before);
    assert!(!fs.file_exists("leafmod/child.py"));
    assert_eq!(module_manager.sub_modules.len(), 0);
}

// An empty query returns every definition; a query matching no name
// returns an empty sequence and therefore no header line.
#[test]
fn find_empty_and_missing_query() {
    let mut fs = FsTree::new();
    let content = String::from("x = 1\ndef f():\n    pass\n");
    fs.write_file("mod.py", content);
    let ast = vec![
        StmtNode::Assign(AssignStmt {
            targets: vec![TargetExpr::Named(String::from("x"))],
            value: Span { start: 4, end: 5 },
        }),
        StmtNode::FunctionDef(FunctionDefStmt {
            name: String::from("f"),
            args: no_args(),
            returns: None,
        }),
    ];
    fs.set_ast("mod.py", ast);

    let all = find_in_module(
        &String::new(),
        &String::from("mod"),
        true,
        true,
        true,
        true,
        &fs,
    )
    .unwrap();
    assert_eq!(
        all,
        vec![
            String::from("|--[f] mod.py\n"),
            String::from("|  x = 1\n"),
            String::from("|  def f():\n"),
        ]
    );

    let none = find_in_module(
        &String::from("zzz"),
        &String::from("mod"),
        true,
        true,
        true,
        true,
        &fs,
    )
    .unwrap();
    assert!(none.is_empty());
}

// A class matches when one of its methods matches, even though the class
// name itself does not contain the query.
#[test]
fn class_matches_through_method() {
    let mut fs = FsTree::new();
    let content = String::from("class C(Base):\n    def mmm(self):\n        pass\n");
    fs.write_file("mod2.py", content);
    let ast = vec![StmtNode::ClassDef(ClassDefStmt {
        name: String::from("C"),
        bases: vec![Span { start: 8, end: 12 }],
        body: vec![ClassBodyStmt::FunctionDef(FunctionDefStmt {
            name: String::from("mmm"),
            args: no_args(),
            returns: None,
        })],
    })];
    fs.set_ast("mod2.py", ast);

    let displays = find_in_module(
        &String::from("mmm"),
        &String::from("mod2"),
        true,
        true,
        true,
        true,
        &fs,
    )
    .unwrap();
    assert_eq!(displays.len(), 2);
    assert_eq!(displays[0], "|--[f] mod2.py\n");
    assert!(displays[1].starts_with("|  class C(Base):\n"));
    assert!(displays[1].contains("def [mmm]("));
}

// The rewrite replaces the dotted name only where it stands as a whole
// token: not inside a longer identifier and not inside a longer dotted
// name.
#[test]
fn rename_respects_token_boundaries() {
    let mut fs = FsTree::new();
    add(
        &AddOptions { module: String::from("pkg"), is_file: false, contains: None },
        &mut fs,
    )
    .unwrap();
    add(
        &AddOptions { module: String::from("pkg.a"), is_file: true, contains: None },
        &mut fs,
    )
    .unwrap();
    fs.write_file(
        "other.py",
        String::from("import pkg.a2\nxpkg.a = 1\nimport pkg.a\nfrom pkg.a import f\n"),
    );

    let mut module_manager =
        ModuleManager::new("pkg.a", ModuleType::File, false, &mut fs).unwrap();
    module_manager.mv("pkg.b", &mut fs).unwrap();

    assert_eq!(
        fs.read_file("other.py").unwrap(),
        "import pkg.a2\nxpkg.a = 1\nimport pkg.b\nfrom pkg.b import f\n"
    );
}

// The project walk reports exactly the top-level modules: leaf files
// directly under the root and packages whose entry file sits one level
// down.
#[test]
fn top_level_discovery() {
    let mut fs = FsTree::new();
    fs.write_file("a.py", String::new());
    fs.write_file("p/__init__.py", String::new());
    fs.write_file("p/c.py", String::new());
    fs.write_file("deep/x/y.py", String::new());

    let tops = top_level_modules(&fs).unwrap();
    assert_eq!(tops.len(), 2);
    assert_eq!(tops[0].0, "a");
    assert!(tops[0].1);
    assert_eq!(tops[1].0, "p");
    assert!(!tops[1].1);
}

// Adding a package with contained leaves creates one leaf file per name.
#[test]
fn add_with_contained_leaves() {
    let mut fs = FsTree::new();
    add(
        &AddOptions {
            module: String::from("pkg"),
            is_file: false,
            contains: Some(vec![String::from("a"), String::from("b")]),
        },
        &mut fs,
    )
    .unwrap();
    assert!(fs.file_exists("pkg/__init__.py"));
    assert!(fs.file_exists("pkg/a.py"));
    assert!(fs.file_exists("pkg/b.py"));
}

// With no module named, the search walks every top-level module and
// concatenates their results.
#[test]
fn find_across_top_level_modules() {
    let mut fs = FsTree::new();
    fs.write_file("a.py", String::from("x = 1\n"));
    let ast = vec![StmtNode::Assign(AssignStmt {
        targets: vec![TargetExpr::Named(String::from("x"))],
        value: Span { start: 4, end: 5 },
    })];
    fs.set_ast("a.py", ast);
    fs.write_file("p/__init__.py", String::new());

    let displays = find(
        &FindOptions {
            query: String::new(),
            module: None,
            is_file: false,
            function: false,
            class: false,
            variable: false,
        },
        &fs,
    )
    .unwrap();
    assert_eq!(
        displays,
        vec![
            String::from("|--[f] a.py\n"),
            String::from("|  x = 1\n"),
            String::from("|--[d] p\n"),
            String::from("|  *\n"),
        ]
    );
}

// With no module named, the tree of every top-level module is rendered in
// walk order.
#[test]
fn view_across_top_level_modules() {
    let mut fs = FsTree::new();
    fs.write_file("a.py", String::new());
    fs.write_file("p/__init__.py", String::new());

    let rendered = view(&ViewOptions { module: None, code: false }, &fs).unwrap();
    assert_eq!(rendered, "|--[f] a\n|--[d] p\n|  *\n");
}
