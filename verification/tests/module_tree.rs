use module_manager::error::ModuleError;
use module_manager::fs_model::FsTree;
use module_manager::module_manager::ModuleManager;
use module_manager::module_manager::ModuleType;

#[test]
fn test_create() {
    let mut fs = FsTree::new();
    let module_manager =
        ModuleManager::new("tests.test_create", ModuleType::File, false, &mut fs).unwrap();
    assert_eq!(module_manager.module, "tests.test_create");
    assert_eq!(module_manager.path, "tests/test_create.py");

    let module_manager =
        ModuleManager::new("tests.test_create", ModuleType::Directory, false, &mut fs).unwrap();
    assert_eq!(module_manager.module, "tests.test_create");
    assert_eq!(module_manager.path, "tests/test_create/__init__.py");
}

#[test]
fn test_build() {
    let mut fs = FsTree::new();
    let module_manager =
        ModuleManager::new("tests.test_build", ModuleType::File, false, &mut fs).unwrap();
    module_manager.build(&mut fs).unwrap();
    assert!(fs.file_exists(module_manager.path.as_str()));

    let mut fs = FsTree::new();
    let module_manager =
        ModuleManager::new("tests.test_build", ModuleType::Directory, false, &mut fs).unwrap();
    module_manager.build(&mut fs).unwrap();
    assert!(fs.file_exists(module_manager.path.as_str()));
}

#[test]
fn test_add_sub_module() {
    let mut fs = FsTree::new();
    let mut module_manager =
        ModuleManager::new("tests.test_add_sub_module", ModuleType::Directory, true, &mut fs)
            .unwrap();
    module_manager
        .add_sub_module("sub_module", ModuleType::File, true, &mut fs)
        .unwrap();

    assert_eq!(module_manager.sub_modules.len(), 1);
    assert_eq!(
        module_manager.sub_modules[0].module,
        "tests.test_add_sub_module.sub_module"
    );
    assert_eq!(
        module_manager.sub_modules[0].path,
        "tests/test_add_sub_module/sub_module.py"
    );
    assert_eq!(module_manager.sub_modules[0].module_type, ModuleType::File);
}

#[test]
fn test_add_sub_module_panic() {
    let mut fs = FsTree::new();
    let mut module_manager =
        ModuleManager::new("tests.test_add_sub_module", ModuleType::File, true, &mut fs).unwrap();
    match module_manager.add_sub_module("sub_module", ModuleType::Directory, true, &mut fs) {
        Ok(_) => {
            panic!("Should panic")
        }
        Err(e) => {
            assert_eq!(e.message(), "Files cannot contain other modules");
            assert_eq!(e, ModuleError::IllegalOperation);
        }
    };
}

#[test]
fn test_mv() {
    let check_start = "from tests.test_mv import *\nimport tests.test_mv.abc as abc\ntest_var:tests.test_mv.abc.ABC = tests.test_mv.abc.ABC()";
    let check_moved = "from tests.test_mv2 import *\nimport tests.test_mv2.abc as abc\ntest_var:tests.test_mv2.abc.ABC = tests.test_mv2.abc.ABC()";

    let mut fs = FsTree::new();
    fs.write_file("tests/test_check_mv.py", String::from(check_start));
    let mut module_manager =
        ModuleManager::new("tests.test_mv", ModuleType::File, true, &mut fs).unwrap();
    module_manager.mv("tests.test_mv2", &mut fs).unwrap();
    assert_eq!(module_manager.module, "tests.test_mv2");
    assert_eq!(module_manager.path, "tests/test_mv2.py");

    let check_content = fs.read_file("tests/test_check_mv.py").expect("Could not read file");
    assert_eq!(check_content, check_moved);

    module_manager.mv("tests.test_mv", &mut fs).unwrap();
    assert_eq!(module_manager.module, "tests.test_mv");
    assert_eq!(module_manager.path, "tests/test_mv.py");

    let check_content = fs.read_file("tests/test_check_mv.py").expect("Could not read file");
    assert_eq!(check_content, check_start);

    let mut fs = FsTree::new();
    fs.write_file("tests/test_check_mv.py", String::from(check_start));
    let mut module_manager =
        ModuleManager::new("tests.test_mv", ModuleType::Directory, true, &mut fs).unwrap();
    module_manager.mv("tests.test_mv2", &mut fs).unwrap();
    assert_eq!(module_manager.module, "tests.test_mv2");
    assert_eq!(module_manager.path, "tests/test_mv2/__init__.py");

    let check_content = fs.read_file("tests/test_check_mv.py").expect("Could not read file");
    assert_eq!(check_content, check_moved);

    module_manager.mv("tests.test_mv", &mut fs).unwrap();
    assert_eq!(module_manager.module, "tests.test_mv");
    assert_eq!(module_manager.path, "tests/test_mv/__init__.py");

    let check_content = fs.read_file("tests/test_check_mv.py").expect("Could not read file");
    assert_eq!(check_content, check_start);
}

#[test]
fn test_mprint() {
    let mut fs = FsTree::new();
    let module_manager = ModuleManager::new("tests", ModuleType::Directory, true, &mut fs).unwrap();
    let rendered = module_manager.mprint(String::from(""), true);
    assert!(rendered.contains("tests"));
}
