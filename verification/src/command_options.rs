//! The four operations the tool exposes — add, move, find, view — and the
//! option records they take, mirrored from the command line by the caller.

use vstd::prelude::*;
use vstd::string::*;

use crate::error::ModuleError;
use crate::fs_model::FsTree;
use crate::module_manager::ModuleManager;
use crate::module_manager::ModuleType;
use crate::module_manager::count_char;
use crate::module_manager::lemma_make_tree_created_empty;
use crate::module_manager::lemma_make_tree_preserves;
use crate::module_manager::make_tree_post;
use crate::module_manager::module_2_path;
use crate::module_manager::module_path_spec;
use crate::module_manager::path_2_module;
use crate::module_manager::path_module_spec;
use crate::module_manager::travel_spec;
use crate::module_manager::count_char_str;
use crate::text::ends_with_str;

verus! {

/// Options of the add operation: the module to create, whether it is a
/// leaf file, and the leaf children to create inside it.
pub struct AddOptions {
    pub module: String,
    pub is_file: bool,
    pub contains: Option<Vec<String>>,
}

/// Options of the move operation: the module to move and its new name.
pub struct MoveOptions {
    pub module: String,
    pub to: String,
}

/// Options of the find operation: the query, an optional module to search
/// in, whether that module is a leaf file, and the kind filters.
pub struct FindOptions {
    pub query: String,
    pub module: Option<String>,
    pub is_file: bool,
    pub function: bool,
    pub class: bool,
    pub variable: bool,
}

/// Options of the view operation: an optional module to show and whether
/// to include reconstructed definition code.
pub struct ViewOptions {
    pub module: Option<String>,
    pub code: bool,
}

/// The operation to run.
pub enum SubCommand {
    Add(AddOptions),
    Move(MoveOptions),
    Find(FindOptions),
    View(ViewOptions),
}

/// The whole parsed command line.
pub struct Options {
    pub subcommand: SubCommand,
}

/// The module kind the add operation builds.
pub open spec fn add_kind(options: &AddOptions) -> ModuleType {
    if options.is_file {
        ModuleType::File
    } else {
        ModuleType::Directory
    }
}

/// The backing path of the j-th contained leaf child an add request
/// names.
pub open spec fn add_child_path(options: &AddOptions, j: int) -> Seq<char> {
    module_path_spec(options.module@ + "."@ + options.contains->0@[j]@, ModuleType::File)
}

/// Builds a module and then each named leaf child inside it. A leaf
/// module cannot contain children, so `contains` must not be given
/// together with `is_file`. Pre-existing paths are left untouched: a file
/// already in the tree keeps its text and stored statements.
pub fn add(options: &AddOptions, fs: &mut FsTree) -> (r: Result<(), ModuleError>)
    requires
        old(fs).wf(),
        !(options.is_file && options.contains is Some),
    ensures
        final(fs).wf(),
        r is Ok ==> final(fs).has_file(
            module_path_spec(options.module@, add_kind(options)),
        ),
        options.contains is None ==> make_tree_post(
            *old(fs),
            *final(fs),
            module_path_spec(options.module@, add_kind(options)),
        ),
        options.contains is None ==> (r is Ok <==> final(fs).has_file(
            module_path_spec(options.module@, add_kind(options)),
        )),
        options.contains is Some ==> (r is Ok <==> final(fs).has_file(
            module_path_spec(options.module@, add_kind(options)),
        ) && (forall|j: int|
            0 <= j < options.contains->0@.len() ==> final(fs).has_file(
                #[trigger] add_child_path(options, j),
            ))),
        r is Ok && options.contains is Some ==> forall|j: int|
            0 <= j < options.contains->0@.len() && !old(fs).has_file(
                #[trigger] add_child_path(options, j),
            ) ==> final(fs).file_content(add_child_path(options, j)) == Seq::<char>::empty(),
        forall|p: Seq<char>| old(fs).has_file(p) ==> #[trigger] final(fs).has_file(p),
        forall|p: Seq<char>|
            old(fs).has_file(p)
                ==> #[trigger] final(fs).file_content(p) == old(fs).file_content(p),
        forall|p: Seq<char>|
            old(fs).has_file(p) ==> #[trigger] final(fs).file_ast(p) == old(fs).file_ast(p),
{
    let module = &options.module;
    let module_type = if options.is_file {
        ModuleType::File
    } else {
        ModuleType::Directory
    };
    let ghost target = module_path_spec(options.module@, add_kind(options));
    let ghost fs0 = *old(fs);
    let mut module_manager = match ModuleManager::new(module.as_str(), module_type, true, fs) {
        Ok(m) => m,
        Err(e) => {
            proof {
                lemma_make_tree_preserves(fs0, *fs, target);
            }
            return Err(e);
        },
    };
    let ghost fs1 = *fs;
    match module_manager.build(fs) {
        Ok(()) => {},
        Err(e) => {
            return Err(e);
        },
    }
    proof {
        crate::module_manager::lemma_build_idempotent(fs0, fs1, *fs, target);
        lemma_make_tree_preserves(fs0, *fs, target);
        if !fs0.has_file(target) {
            lemma_make_tree_created_empty(fs0, *fs, target);
        }
    }
    match &options.contains {
        Some(subs) => {
            let mut i: usize = 0;
            while i < subs.len()
                invariant
                    fs.wf(),
                    options.contains is Some,
                    options.contains matches Some(cs) && cs == subs,
                    fs0 == *old(fs),
                    module_manager.wf(),
                    module_manager.module@ == options.module@,
                    module_manager.module_type is Directory,
                    target == module_path_spec(options.module@, add_kind(options)),
                    fs.has_file(target),
                    !fs0.has_file(target) ==> fs.file_content(target) == Seq::<char>::empty(),
                    i <= subs@.len(),
                    forall|j: int|
                        0 <= j < i ==> fs.has_file(#[trigger] add_child_path(options, j)),
                    forall|j: int|
                        0 <= j < i && !fs0.has_file(#[trigger] add_child_path(options, j))
                            ==> fs.file_content(add_child_path(options, j)) == Seq::<
                            char,
                        >::empty(),
                    forall|p: Seq<char>| fs0.has_file(p) ==> #[trigger] fs.has_file(p),
                    forall|p: Seq<char>|
                        fs0.has_file(p) ==> #[trigger] fs.file_content(p) == fs0.file_content(p),
                    forall|p: Seq<char>|
                        fs0.has_file(p) ==> #[trigger] fs.file_ast(p) == fs0.file_ast(p),
                    forall|p: Seq<char>|
                        #[trigger] fs.has_file(p) ==> fs0.has_file(p) || p == target || (
                        exists|k: int| 0 <= k < i && #[trigger] add_child_path(options, k) == p),
                decreases subs@.len() - i,
            {
                let ghost pre = *fs;
                let ghost child = add_child_path(options, i as int);
                match module_manager.add_sub_module(
                    subs[i].as_str(),
                    ModuleType::File,
                    true,
                    fs,
                ) {
                    Ok(()) => {},
                    Err(e) => {
                        proof {
                            lemma_make_tree_preserves(pre, *fs, child);
                        }
                        return Err(e);
                    },
                }
                proof {
                    lemma_make_tree_preserves(pre, *fs, child);
                    assert forall|j: int|
                        0 <= j < i + 1 implies fs.has_file(
                        #[trigger] add_child_path(options, j),
                    ) by {
                        if j < i {
                            assert(pre.has_file(add_child_path(options, j)));
                        }
                    }
                    assert forall|p: Seq<char>| #[trigger]
                        fs.has_file(p) implies fs0.has_file(p) || p == target || (exists|k: int|
                        0 <= k < i + 1 && #[trigger] add_child_path(options, k) == p) by {
                        if !pre.has_file(p) {
                            assert(!(pre.has_file(child) || pre.has_dir(child)));
                            assert(p == child);
                            assert(add_child_path(options, i as int) == p);
                        } else {
                            if !fs0.has_file(p) && p != target {
                                let k = choose|k: int|
                                    0 <= k < i && #[trigger] add_child_path(options, k) == p;
                                assert(add_child_path(options, k) == p);
                            }
                        }
                    }
                    assert forall|j: int|
                        0 <= j < i + 1 && !fs0.has_file(#[trigger] add_child_path(options, j))
                        implies fs.file_content(add_child_path(options, j)) == Seq::<
                        char,
                    >::empty() by {
                        let cp = add_child_path(options, j);
                        if j < i {
                            assert(pre.has_file(cp));
                        } else {
                            if pre.has_file(cp) {
                                assert(fs0.has_file(cp) || cp == target || (exists|k: int|
                                    0 <= k < i && #[trigger] add_child_path(options, k) == cp));
                                if cp != target {
                                    let k = choose|k: int|
                                        0 <= k < i && #[trigger] add_child_path(options, k)
                                            == cp;
                                    assert(pre.file_content(cp) == Seq::<char>::empty());
                                }
                                assert(fs.file_content(cp) == pre.file_content(cp));
                            } else {
                                assert(fs.has_file(cp));
                                lemma_make_tree_created_empty(pre, *fs, cp);
                            }
                        }
                    }
                }
                i += 1;
            }
        },
        None => {},
    }
    Ok(())
}

/// Moves a module, treated as a package, to a new dotted name.
pub fn mv(options: &MoveOptions, fs: &mut FsTree) -> (r: Result<(), ModuleError>)
    requires
        old(fs).wf(),
    ensures
        final(fs).wf(),
        r is Ok ==> final(fs).has_file(module_path_spec(options.to@, ModuleType::Directory)),
        crate::module_manager::dir_move_safe(
            crate::module_manager::dots_to_slashes(options.module@),
            crate::module_manager::dots_to_slashes(options.to@),
        ) && old(fs).has_file(module_path_spec(options.module@, ModuleType::Directory))
            ==> r is Ok,
        crate::module_manager::dir_move_safe(
            crate::module_manager::dots_to_slashes(options.module@),
            crate::module_manager::dots_to_slashes(options.to@),
        ) && old(fs).has_file(module_path_spec(options.module@, ModuleType::Directory))
            ==> crate::module_manager::dir_moved_post(
            *old(fs),
            *final(fs),
            crate::module_manager::dots_to_slashes(options.module@),
            crate::module_manager::dots_to_slashes(options.to@),
            options.module@,
            options.to@,
        ),
{
    let mut module_manager = match ModuleManager::new(
        options.module.as_str(),
        ModuleType::Directory,
        false,
        fs,
    ) {
        Ok(m) => m,
        Err(e) => {
            return Err(e);
        },
    };
    proof {
        reveal_strlit("/__init__.py");
        assert(module_manager.dir_of_spec() =~= crate::module_manager::dots_to_slashes(
            options.module@,
        ));
    }
    match module_manager.mv(options.to.as_str(), fs) {
        Ok(()) => {},
        Err(e) => {
            return Err(e);
        },
    }
    Ok(())
}

/// Loads one module from the project tree and renders the definitions in
/// it and its descendants that match the query.
pub fn find_in_module(
    query: &String,
    module: &String,
    is_file: bool,
    find_vars: bool,
    find_functions: bool,
    find_classes: bool,
    fs: &FsTree,
) -> (r: Result<Vec<String>, ModuleError>)
    requires
        fs.wf(),
    ensures
        r is Ok <==> fs.has_file(
            module_path_spec(
                module@,
                (if is_file {
                    ModuleType::File
                } else {
                    ModuleType::Directory
                }),
            ),
        ),
        r matches Ok(v) ==> exists|m: ModuleManager|
            {
                &&& #[trigger] m.wf()
                &&& m.module@ == module@
                &&& m.module_type == (if is_file {
                    ModuleType::File
                } else {
                    ModuleType::Directory
                })
                &&& m.well_loaded(*fs)
                &&& v.deep_view() == m.find_spec_mm(
                    query@,
                    Seq::<char>::empty(),
                    find_vars,
                    find_functions,
                    find_classes,
                )
            },
{
    let module_type = if is_file {
        ModuleType::File
    } else {
        ModuleType::Directory
    };
    let path = match module_2_path(module.as_str(), &module_type) {
        Ok(p) => p,
        Err(e) => {
            return Err(e);
        },
    };
    let mut module_manager = ModuleManager {
        path,
        module: module.clone(),
        classes: Vec::new(),
        functions: Vec::new(),
        vars: Vec::new(),
        module_type,
        sub_modules: Vec::new(),
    };
    match module_manager.reload(fs) {
        Ok(()) => {},
        Err(e) => {
            return Err(e);
        },
    }
    let displays = match module_manager.find(query, String::new(), find_vars, find_functions,
        find_classes) {
        Ok(v) => v,
        Err(e) => {
            return Err(e);
        },
    };
    proof {
        let m = module_manager;
        assert(m.wf() && m.module@ == module@ && m.well_loaded(*fs));
    }
    Ok(displays)
}

/// Whether a walked path names a top-level module: a leaf file directly
/// under the root, or the entry file of a package directly under it.
pub open spec fn top_level_path(p: Seq<char>) -> bool {
    if "/__init__.py"@.is_suffix_of(p) {
        count_char(p, '/') == 1
    } else {
        count_char(p, '/') == 0
    }
}

/// The top-level modules the project tree holds, in file order: each a
/// dotted name with a flag saying whether it is a leaf file.
pub open spec fn top_level_spec(paths: Seq<Seq<char>>) -> Seq<(Seq<char>, bool)>
    decreases paths.len(),
{
    if paths.len() == 0 {
        Seq::<(Seq<char>, bool)>::empty()
    } else {
        top_level_spec(paths.drop_last()) + (if top_level_path(paths.last()) {
            match path_module_spec(paths.last()) {
                Some(m) => seq![(m, !"/__init__.py"@.is_suffix_of(paths.last()))],
                None => Seq::<(Seq<char>, bool)>::empty(),
            }
        } else {
            Seq::<(Seq<char>, bool)>::empty()
        })
    }
}

/// Discovers every top-level module in the project tree.
pub fn top_level_modules(fs: &FsTree) -> (r: Result<Vec<(String, bool)>, ModuleError>)
    ensures
        r matches Ok(v) && {
            let walked = travel_spec(fs.files@, None::<Seq<char>>, Some(2usize));
            &&& v@.len() == top_level_spec(walked).len()
            &&& forall|i: int|
                0 <= i < v@.len() ==> (#[trigger] v@[i]).0@ == top_level_spec(walked)[i].0
                    && v@[i].1 == top_level_spec(walked)[i].1
        },
{
    let walked = match ModuleManager::travel_root(None, Some(2), fs) {
        Ok(v) => v,
        Err(e) => {
            return Err(e);
        },
    };
    let ghost wv = walked.deep_view();
    let mut found: Vec<(String, bool)> = Vec::new();
    let mut i: usize = 0;
    while i < walked.len()
        invariant
            i <= walked@.len(),
            wv == walked.deep_view(),
            wv.len() == walked@.len(),
            forall|k: int| 0 <= k < walked@.len() ==> (#[trigger] walked@[k])@ == wv[k],
            found@.len() == top_level_spec(wv.take(i as int)).len(),
            forall|k: int|
                0 <= k < found@.len() ==> (#[trigger] found@[k]).0@ == top_level_spec(
                    wv.take(i as int),
                )[k].0 && found@[k].1 == top_level_spec(wv.take(i as int))[k].1,
        decreases walked@.len() - i,
    {
        proof {
            assert(wv.take(i + 1).drop_last() =~= wv.take(i as int));
            assert(wv.take(i + 1).last() == wv[i as int]);
            reveal_strlit("/__init__.py");
        }
        let p = &walked[i];
        let slashes = count_char_str(p.as_str(), '/');
        let is_init = ends_with_str(p.as_str(), "/__init__.py");
        let top = if is_init {
            slashes == 1
        } else {
            slashes == 0
        };
        if top {
            match path_2_module(p.as_str()) {
                Ok(m) => {
                    found.push((m, !is_init));
                },
                Err(_) => {},
            }
        }
        i += 1;
    }
    proof {
        assert(wv.take(wv.len() as int) =~= wv);
    }
    Ok(found)
}

/// The top-level modules of a project tree, as the depth-bounded walk
/// reports them.
pub open spec fn top_level_entries(fs: FsTree) -> Seq<(Seq<char>, bool)> {
    top_level_spec(travel_spec(fs.files@, None::<Seq<char>>, Some(2usize)))
}

/// The concatenated `find` results of a sequence of loaded nodes.
pub open spec fn nodes_find_concat(
    ms: Seq<ModuleManager>,
    q: Seq<char>,
    find_vars: bool,
    find_functions: bool,
    find_classes: bool,
) -> Seq<Seq<char>>
    decreases ms.len(),
{
    if ms.len() == 0 {
        Seq::<Seq<char>>::empty()
    } else {
        nodes_find_concat(ms.drop_last(), q, find_vars, find_functions, find_classes)
            + ms.last().find_spec_mm(q, Seq::<char>::empty(), find_vars, find_functions,
        find_classes)
    }
}

/// The concatenated tree renderings of a sequence of loaded nodes.
pub open spec fn nodes_mprint_concat(ms: Seq<ModuleManager>, code: bool) -> Seq<char>
    decreases ms.len(),
{
    if ms.len() == 0 {
        Seq::<char>::empty()
    } else {
        nodes_mprint_concat(ms.drop_last(), code) + ms.last().mprint_spec(
            Seq::<char>::empty(),
            code,
        )
    }
}

/// The nodes `ms` are the loaded top-level modules of the project, one
/// per walk entry in order — under the entry's own kind — and `out` is
/// their concatenated `find` rendering.
pub open spec fn top_level_find_witness(
    ms: Seq<ModuleManager>,
    fs: FsTree,
    q: Seq<char>,
    find_vars: bool,
    find_functions: bool,
    find_classes: bool,
    out: Seq<Seq<char>>,
) -> bool {
    let tops = top_level_entries(fs);
    &&& ms.len() == tops.len()
    &&& forall|i: int|
        0 <= i < ms.len() ==> (#[trigger] ms[i]).wf() && ms[i].module@ == tops[i].0
            && ms[i].module_type == (if tops[i].1 {
            ModuleType::File
        } else {
            ModuleType::Directory
        }) && ms[i].well_loaded(fs)
    &&& out == nodes_find_concat(ms, q, find_vars, find_functions, find_classes)
}

/// The nodes `ms` are the loaded top-level modules of the project, one
/// per walk entry in order — each treated as a leaf exactly when its leaf
/// file exists — and `out` is their concatenated tree rendering.
pub open spec fn top_level_view_witness(
    ms: Seq<ModuleManager>,
    fs: FsTree,
    code: bool,
    out: Seq<char>,
) -> bool {
    let tops = top_level_entries(fs);
    &&& ms.len() == tops.len()
    &&& forall|i: int|
        0 <= i < ms.len() ==> (#[trigger] ms[i]).wf() && ms[i].module@ == tops[i].0
            && ms[i].module_type == (if fs.has_file(
            module_path_spec(tops[i].0, ModuleType::File),
        ) {
            ModuleType::File
        } else {
            ModuleType::Directory
        }) && ms[i].well_loaded(fs)
    &&& out == nodes_mprint_concat(ms, code)
}

/// The kind filters a find request asks for: all three kinds when none
/// is named, else exactly the named ones.
pub open spec fn effective_filters(options: &FindOptions) -> (bool, bool, bool) {
    if !options.function && !options.class && !options.variable {
        (true, true, true)
    } else {
        (options.variable, options.function, options.class)
    }
}

/// Renders the definitions matching a query: in the given module, or in
/// every top-level module of the project when none is given.
#[verifier::rlimit(80)]
#[verifier::spinoff_prover]
pub fn find(options: &FindOptions, fs: &FsTree) -> (r: Result<Vec<String>, ModuleError>)
    requires
        fs.wf(),
    ensures
        options.module matches Some(module) ==> (r is Ok <==> fs.has_file(
            module_path_spec(
                module@,
                (if options.is_file {
                    ModuleType::File
                } else {
                    ModuleType::Directory
                }),
            ),
        )),
        options.module matches Some(module) ==> (r matches Ok(v) ==> exists|m: ModuleManager|
            {
                &&& #[trigger] m.wf()
                &&& m.module@ == module@
                &&& m.well_loaded(*fs)
                &&& v.deep_view() == m.find_spec_mm(
                    options.query@,
                    Seq::<char>::empty(),
                    effective_filters(options).0,
                    effective_filters(options).1,
                    effective_filters(options).2,
                )
            }),
        options.module is None ==> (r is Ok <==> forall|k: int|
            0 <= k < top_level_entries(*fs).len() ==> fs.has_file(
                module_path_spec(
                    (#[trigger] top_level_entries(*fs)[k]).0,
                    (if top_level_entries(*fs)[k].1 {
                        ModuleType::File
                    } else {
                        ModuleType::Directory
                    }),
                ),
            )),
        options.module is None && r is Ok ==> exists|ms: Seq<ModuleManager>|
            top_level_find_witness(
                ms,
                *fs,
                options.query@,
                effective_filters(options).0,
                effective_filters(options).1,
                effective_filters(options).2,
                (r->Ok_0).deep_view(),
            ),
{
    let (find_vars, find_functions, find_classes) = if !options.function && !options.class
        && !options.variable {
        (true, true, true)
    } else {
        (options.variable, options.function, options.class)
    };
    let result = match &options.module {
        Some(module) => find_in_module(
            &options.query,
            module,
            options.is_file,
            find_vars,
            find_functions,
            find_classes,
            fs,
        ),
        None => find_all(&options.query, find_vars, find_functions, find_classes, fs),
    };
    proof {
        if options.module is None && result is Ok {
            let witness_nodes = choose|ms: Seq<ModuleManager>|
                top_level_find_witness(
                    ms,
                    *fs,
                    options.query@,
                    find_vars,
                    find_functions,
                    find_classes,
                    (result->Ok_0).deep_view(),
                );
            assert(top_level_find_witness(
                witness_nodes,
                *fs,
                options.query@,
                effective_filters(options).0,
                effective_filters(options).1,
                effective_filters(options).2,
                (result->Ok_0).deep_view(),
            ));
        }
    }
    result
}

/// Renders the matching definitions of every top-level module of the
/// project, in walk order; the worker behind `find` when no module is
/// named.
fn find_all(
    query: &String,
    find_vars: bool,
    find_functions: bool,
    find_classes: bool,
    fs: &FsTree,
) -> (r: Result<Vec<String>, ModuleError>)
    requires
        fs.wf(),
    ensures
        r is Ok <==> forall|k: int|
            0 <= k < top_level_entries(*fs).len() ==> fs.has_file(
                module_path_spec(
                    (#[trigger] top_level_entries(*fs)[k]).0,
                    (if top_level_entries(*fs)[k].1 {
                        ModuleType::File
                    } else {
                        ModuleType::Directory
                    }),
                ),
            ),
        r is Ok ==> exists|ms: Seq<ModuleManager>|
            top_level_find_witness(
                ms,
                *fs,
                query@,
                find_vars,
                find_functions,
                find_classes,
                (r->Ok_0).deep_view(),
            ),
{
            let tops = match top_level_modules(fs) {
                Ok(v) => v,
                Err(e) => {
                    return Err(e);
                },
            };
            let mut displays: Vec<String> = Vec::new();
            let ghost mut loaded_nodes = Seq::<ModuleManager>::empty();
            let mut i: usize = 0;
            while i < tops.len()
                invariant
                    fs.wf(),
                    i <= tops@.len(),
                    tops@.len() == top_level_entries(*fs).len(),
                    forall|k: int|
                        0 <= k < tops@.len() ==> (#[trigger] tops@[k]).0@ == top_level_entries(
                            *fs,
                        )[k].0 && tops@[k].1 == top_level_entries(*fs)[k].1,
                    loaded_nodes.len() == i,
                    forall|k: int|
                        0 <= k < i ==> (#[trigger] loaded_nodes[k]).wf() && loaded_nodes[k].module@
                            == top_level_entries(*fs)[k].0 && loaded_nodes[k].module_type == (
                        if top_level_entries(*fs)[k].1 {
                            ModuleType::File
                        } else {
                            ModuleType::Directory
                        }) && loaded_nodes[k].well_loaded(*fs),
                    displays.deep_view() == nodes_find_concat(
                        loaded_nodes,
                        query@,
                        find_vars,
                        find_functions,
                        find_classes,
                    ),
                decreases tops@.len() - i,
            {
                let (module, is_file) = (tops[i].0.clone(), tops[i].1);
                match find_in_module(
                    query,
                    &module,
                    is_file,
                    find_vars,
                    find_functions,
                    find_classes,
                    fs,
                ) {
                    Ok(mut v) => {
                        let ghost prev_ms = loaded_nodes;
                        let ghost old_dv = displays.deep_view();
                        let ghost vdv = v.deep_view();
                        proof {
                            let m = choose|m: ModuleManager|
                                {
                                    &&& #[trigger] m.wf()
                                    &&& m.module@ == module@
                                    &&& m.module_type == (if is_file {
                                        ModuleType::File
                                    } else {
                                        ModuleType::Directory
                                    })
                                    &&& m.well_loaded(*fs)
                                    &&& v.deep_view() == m.find_spec_mm(
                                        query@,
                                        Seq::<char>::empty(),
                                        find_vars,
                                        find_functions,
                                        find_classes,
                                    )
                                };
                            loaded_nodes = loaded_nodes.push(m);
                            assert(loaded_nodes.drop_last() =~= prev_ms);
                            assert(loaded_nodes.last() == m);
                        }
                        displays.append(&mut v);
                        proof {
                            assert(displays.deep_view() =~= old_dv + vdv);
                        }
                    },
                    Err(e) => {
                        proof {
                            assert(!fs.has_file(
                                module_path_spec(
                                    top_level_entries(*fs)[i as int].0,
                                    (if top_level_entries(*fs)[i as int].1 {
                                        ModuleType::File
                                    } else {
                                        ModuleType::Directory
                                    }),
                                ),
                            ));
                        }
                        return Err(e);
                    },
                }
                i += 1;
            }
            let result: Result<Vec<String>, ModuleError> = Ok(displays);
            proof {
                assert(top_level_find_witness(
                    loaded_nodes,
                    *fs,
                    query@,
                    find_vars,
                    find_functions,
                    find_classes,
                    (result->Ok_0).deep_view(),
                ));
                assert forall|k: int|
                    0 <= k < top_level_entries(*fs).len() implies fs.has_file(
                    module_path_spec(
                        (#[trigger] top_level_entries(*fs)[k]).0,
                        (if top_level_entries(*fs)[k].1 {
                            ModuleType::File
                        } else {
                            ModuleType::Directory
                        }),
                    ),
                ) by {
                    assert(loaded_nodes[k].well_loaded(*fs));
                    assert(loaded_nodes[k].wf());
                }
            }
            result
}

/// Renders the module tree of one module, or of every top-level module of
/// the project when none is given, optionally with definition code.
pub fn view(options: &ViewOptions, fs: &FsTree) -> (r: Result<String, ModuleError>)
    requires
        fs.wf(),
    ensures
        (match options.module {
            Some(ref module) => r matches Ok(s) ==> exists|m: ModuleManager|
                {
                    &&& #[trigger] m.wf()
                    &&& m.module@ == module@
                    &&& m.module_type == (if fs.has_file(
                        module_path_spec(module@, ModuleType::File),
                    ) {
                        ModuleType::File
                    } else {
                        ModuleType::Directory
                    })
                    &&& m.well_loaded(*fs)
                    &&& s@ == m.mprint_spec(Seq::<char>::empty(), options.code)
                },
            None => true,
        }),
        options.module matches Some(module) ==> (r is Ok <==> fs.has_file(
            module_path_spec(module@, ModuleType::File),
        ) || fs.has_file(module_path_spec(module@, ModuleType::Directory))),
        options.module is None ==> (r is Ok <==> forall|k: int|
            0 <= k < top_level_entries(*fs).len() ==> fs.has_file(
                module_path_spec(
                    (#[trigger] top_level_entries(*fs)[k]).0,
                    ModuleType::File,
                ),
            ) || fs.has_file(
                module_path_spec(top_level_entries(*fs)[k].0, ModuleType::Directory),
            )),
        options.module is None && r is Ok ==> exists|ms: Seq<ModuleManager>|
            top_level_view_witness(ms, *fs, options.code, (r->Ok_0)@),
{
    match &options.module {
        Some(module) => view_one(module, options.code, fs),
        None => view_all(options.code, fs),
    }
}

/// Renders the tree of every top-level module of the project, in walk
/// order; the worker behind `view` when no module is named.
fn view_all(code: bool, fs: &FsTree) -> (r: Result<String, ModuleError>)
    requires
        fs.wf(),
    ensures
        r is Ok <==> forall|k: int|
            0 <= k < top_level_entries(*fs).len() ==> fs.has_file(
                module_path_spec(
                    (#[trigger] top_level_entries(*fs)[k]).0,
                    ModuleType::File,
                ),
            ) || fs.has_file(
                module_path_spec(top_level_entries(*fs)[k].0, ModuleType::Directory),
            ),
        r is Ok ==> exists|ms: Seq<ModuleManager>|
            top_level_view_witness(ms, *fs, code, (r->Ok_0)@),
{
    let tops = match top_level_modules(fs) {
        Ok(v) => v,
        Err(e) => {
            return Err(e);
        },
    };
    let mut rendered = String::new();
    let ghost mut loaded_nodes = Seq::<ModuleManager>::empty();
    let mut i: usize = 0;
    while i < tops.len()
        invariant
            fs.wf(),
            i <= tops@.len(),
            tops@.len() == top_level_entries(*fs).len(),
            forall|k: int|
                0 <= k < tops@.len() ==> (#[trigger] tops@[k]).0@ == top_level_entries(*fs)[k].0
                    && tops@[k].1 == top_level_entries(*fs)[k].1,
            loaded_nodes.len() == i,
            forall|k: int|
                0 <= k < i ==> (#[trigger] loaded_nodes[k]).wf() && loaded_nodes[k].module@
                    == top_level_entries(*fs)[k].0 && loaded_nodes[k].module_type == (
                if fs.has_file(
                    module_path_spec(top_level_entries(*fs)[k].0, ModuleType::File),
                ) {
                    ModuleType::File
                } else {
                    ModuleType::Directory
                }) && loaded_nodes[k].well_loaded(*fs),
            rendered@ == nodes_mprint_concat(loaded_nodes, code),
        decreases tops@.len() - i,
    {
        let module = tops[i].0.clone();
        match view_one(&module, code, fs) {
            Ok(s) => {
                let ghost prev_nodes = loaded_nodes;
                proof {
                    assert(fs.has_file(module_path_spec(top_level_entries(*fs)[i as int].0, ModuleType::File))
                        || fs.has_file(module_path_spec(top_level_entries(*fs)[i as int].0, ModuleType::Directory)));
                }
                proof {
                    let m = choose|m: ModuleManager|
                        {
                            &&& #[trigger] m.wf()
                            &&& m.module@ == module@
                            &&& m.module_type == (if fs.has_file(
                                module_path_spec(module@, ModuleType::File),
                            ) {
                                ModuleType::File
                            } else {
                                ModuleType::Directory
                            })
                            &&& m.well_loaded(*fs)
                            &&& s@ == m.mprint_spec(Seq::<char>::empty(), code)
                        };
                    loaded_nodes = loaded_nodes.push(m);
                    assert(loaded_nodes.drop_last() =~= prev_nodes);
                    assert(loaded_nodes.last() == m);
                }
                rendered.append(s.as_str());
            },
            Err(e) => {
                proof {
                    assert(!fs.has_file(
                        module_path_spec(top_level_entries(*fs)[i as int].0, ModuleType::File),
                    ) && !fs.has_file(
                        module_path_spec(
                            top_level_entries(*fs)[i as int].0,
                            ModuleType::Directory,
                        ),
                    ));
                }
                return Err(e);
            },
        }
        i += 1;
    }
    let result: Result<String, ModuleError> = Ok(rendered);
    proof {
        assert(top_level_view_witness(loaded_nodes, *fs, code, (result->Ok_0)@));
        assert forall|k: int|
            0 <= k < top_level_entries(*fs).len() implies fs.has_file(
            module_path_spec((#[trigger] top_level_entries(*fs)[k]).0, ModuleType::File),
        ) || fs.has_file(
            module_path_spec(top_level_entries(*fs)[k].0, ModuleType::Directory),
        ) by {
            assert(loaded_nodes[k].well_loaded(*fs));
            assert(loaded_nodes[k].wf());
        }
    }
    result
}

/// Renders one module's tree, treating the module as a leaf when a leaf
/// file backs it and as a package otherwise; the worker behind `view`.
fn view_one(module: &String, code: bool, fs: &FsTree) -> (r: Result<String, ModuleError>)
    requires
        fs.wf(),
    ensures
        r is Ok <==> fs.has_file(module_path_spec(module@, ModuleType::File)) || fs.has_file(
            module_path_spec(module@, ModuleType::Directory),
        ),
        r matches Ok(s) ==> exists|m: ModuleManager|
            {
                &&& #[trigger] m.wf()
                &&& m.module@ == module@
                &&& m.module_type == (if fs.has_file(
                    module_path_spec(module@, ModuleType::File),
                ) {
                    ModuleType::File
                } else {
                    ModuleType::Directory
                })
                &&& m.well_loaded(*fs)
                &&& s@ == m.mprint_spec(Seq::<char>::empty(), code)
            },
{
    let file_path = match module_2_path(module.as_str(), &ModuleType::File) {
        Ok(p) => p,
        Err(e) => {
            return Err(e);
        },
    };
    let module_type = if fs.file_exists(file_path.as_str()) {
        ModuleType::File
    } else {
        ModuleType::Directory
    };
    let path = match module_2_path(module.as_str(), &module_type) {
        Ok(p) => p,
        Err(e) => {
            return Err(e);
        },
    };
    let mut module_manager = ModuleManager {
        path,
        module: module.clone(),
        classes: Vec::new(),
        functions: Vec::new(),
        vars: Vec::new(),
        module_type,
        sub_modules: Vec::new(),
    };
    match module_manager.reload(fs) {
        Ok(()) => {},
        Err(e) => {
            return Err(e);
        },
    }
    let rendered = module_manager.mprint(String::new(), code);
    proof {
        let m = module_manager;
        assert(m.wf() && m.module@ == module@ && m.well_loaded(*fs));
    }
    Ok(rendered)
}

} // verus!
