//! The module tree: a node per module, identified by its dotted name and
//! kind, owning the definitions of its own file and its child nodes; and
//! the operations that build, reload, query, move and print that tree over
//! an explicit project-tree value.

use vstd::prelude::*;
use vstd::string::*;

use crate::error::ModuleError;
use crate::fs_model::FsTree;
use crate::python_def::Attribute;
use crate::python_def::Class;
use crate::python_def::Method;
use crate::python_def::PythonDef;
use crate::text::push_char_from;
use crate::text::str_eq;

verus! {

/// The kind of a module: a leaf file, or a directory-backed package with
/// a designated entry file.
#[derive(Clone, Copy, Debug, PartialEq, Eq, Structural)]
pub enum ModuleType {
    File,
    Directory,
}

/// The dotted name with every dot replaced by a path separator.
pub open spec fn dots_to_slashes(m: Seq<char>) -> Seq<char> {
    m.map_values(|c: char| if c == '.' { '/' } else { c })
}

/// The backing path of a module: `a.b.c` of kind `File` maps to
/// `a/b/c.py`; of kind `Directory` to `a/b/c/__init__.py`.
pub open spec fn module_path_spec(m: Seq<char>, kind: ModuleType) -> Seq<char> {
    match kind {
        ModuleType::Directory => dots_to_slashes(m) + "/__init__.py"@,
        ModuleType::File => dots_to_slashes(m) + ".py"@,
    }
}

/// One step of the path-to-name conversion: what a single path component
/// does to the dotted name built so far.
pub ghost enum CompStep {
    Done(Option<Seq<char>>),
    Go(Seq<char>),
}

/// Processes one path component. Empty and `.` components are skipped; an
/// `__init__.py` component ends the conversion, dropping the trailing dot;
/// any other component ending in `.py` ends it with its stem appended; a
/// plain component is appended with a following dot.
pub open spec fn component_step(comp: Seq<char>, acc: Seq<char>) -> CompStep {
    if comp.len() == 0 || comp == "."@ {
        CompStep::Go(acc)
    } else if comp == "__init__.py"@ {
        CompStep::Done(
            Some(
                if acc.len() > 0 {
                    acc.take(acc.len() - 1)
                } else {
                    acc
                },
            ),
        )
    } else if ".py"@.is_suffix_of(comp) {
        CompStep::Done(Some(acc + comp.take(comp.len() - 3)))
    } else {
        CompStep::Go(acc + comp + "."@)
    }
}

/// The dotted name denoted by the rest of a path, given the component
/// read so far and the name built so far; `None` when the path never
/// reaches a source-file component.
pub open spec fn path_module_go(s: Seq<char>, comp: Seq<char>, acc: Seq<char>) -> Option<
    Seq<char>,
>
    decreases s.len(),
{
    if s.len() == 0 {
        match component_step(comp, acc) {
            CompStep::Done(r) => r,
            CompStep::Go(_) => None,
        }
    } else if s[0] == '/' {
        match component_step(comp, acc) {
            CompStep::Done(r) => r,
            CompStep::Go(acc2) => path_module_go(s.skip(1), Seq::<char>::empty(), acc2),
        }
    } else {
        path_module_go(s.skip(1), comp.push(s[0]), acc)
    }
}

/// The dotted name a path denotes, or `None` for a path that names no
/// source file.
pub open spec fn path_module_spec(s: Seq<char>) -> Option<Seq<char>> {
    path_module_go(s, Seq::<char>::empty(), Seq::<char>::empty())
}

/// The last dotted component, reading `m` with `comp` already read.
pub open spec fn last_comp_with(comp: Seq<char>, m: Seq<char>) -> Seq<char>
    decreases m.len(),
{
    if m.len() == 0 {
        comp
    } else if m[0] == '.' {
        last_comp_with(Seq::<char>::empty(), m.skip(1))
    } else {
        last_comp_with(comp.push(m[0]), m.skip(1))
    }
}

/// A dotted name is valid for a kind when it is a non-empty sequence of
/// non-empty components free of separators, and a leaf's last component is
/// not the reserved entry-file stem: a leaf named `a.__init__` would share
/// its backing path with the package `a`, so the path cannot name both.
pub open spec fn valid_module_name(m: Seq<char>, kind: ModuleType) -> bool {
    &&& m.len() > 0
    &&& m[0] != '.' && m[m.len() - 1] != '.'
    &&& forall|i: int| 0 <= i < m.len() ==> m[i] != '/'
    &&& forall|i: int| 0 <= i < m.len() - 1 ==> !(#[trigger] m[i] == '.' && m[i + 1] == '.')
    &&& (kind is File ==> last_comp_with(Seq::<char>::empty(), m) != "__init__"@)
}

/// The file ending a kind appends to the separated name.
pub open spec fn path_tail_of(kind: ModuleType) -> Seq<char> {
    match kind {
        ModuleType::Directory => "/__init__.py"@,
        ModuleType::File => ".py"@,
    }
}

/// A run of characters free of separators and dots is consumed as one
/// component.
proof fn lemma_go_plain_run(s: Seq<char>, comp: Seq<char>, acc: Seq<char>)
    requires
        forall|i: int| 0 <= i < s.len() ==> s[i] != '/',
    ensures
        path_module_go(s, comp, acc) == (match component_step(comp + s, acc) {
            CompStep::Done(r) => r,
            CompStep::Go(_) => None::<Seq<char>>,
        }),
    decreases s.len(),
{
    if s.len() == 0 {
        assert(comp + s =~= comp);
    } else {
        lemma_go_plain_run(s.skip(1), comp.push(s[0]), acc);
        assert(comp.push(s[0]) + s.skip(1) =~= comp + s);
    }
}

/// A component without dots or separators is appended to the name with a
/// trailing dot.
proof fn lemma_plain_component_step(comp: Seq<char>, acc: Seq<char>)
    requires
        comp.len() > 0,
        forall|i: int| 0 <= i < comp.len() ==> comp[i] != '.' && comp[i] != '/',
    ensures
        component_step(comp, acc) == CompStep::Go(acc + comp + "."@),
{
    reveal_strlit(".");
    reveal_strlit(".py");
    reveal_strlit("__init__.py");
    assert(comp != "."@) by {
        if comp == "."@ {
            assert(comp[0] == '.');
        }
    }
    assert(comp != "__init__.py"@) by {
        if comp == "__init__.py"@ {
            assert(comp[8] == '.');
        }
    }
    assert(!".py"@.is_suffix_of(comp)) by {
        if ".py"@.is_suffix_of(comp) {
            assert(".py"@ == comp.subrange(comp.len() - 3, comp.len() as int));
            assert(comp[comp.len() - 3] == ".py"@[0]);
        }
    }
}

/// A dot-free component followed by the leaf ending is consumed as the
/// final component of the name.
proof fn lemma_py_component_step(comp: Seq<char>, acc: Seq<char>)
    requires
        comp.len() > 0,
        forall|i: int| 0 <= i < comp.len() ==> comp[i] != '.' && comp[i] != '/',
        comp != "__init__"@,
    ensures
        component_step(comp + ".py"@, acc) == CompStep::Done(Some(acc + comp)),
{
    reveal_strlit(".");
    reveal_strlit(".py");
    reveal_strlit("__init__.py");
    reveal_strlit("__init__");
    let c3 = comp + ".py"@;
    assert(c3.len() == comp.len() + 3);
    assert(c3 != "."@) by {
        if c3 == "."@ {
            assert(c3.len() == 1);
        }
    }
    assert(c3 != "__init__.py"@) by {
        if c3 == "__init__.py"@ {
            assert(comp.len() == 8);
            assert forall|i: int| 0 <= i < 8 implies comp[i] == "__init__"@[i] by {
                assert(comp[i] == c3[i]);
            }
            assert(comp =~= "__init__"@);
        }
    }
    assert(".py"@.is_suffix_of(c3)) by {
        assert(c3.skip(c3.len() - 3) =~= ".py"@);
    }
    assert(c3.take(c3.len() - 3) =~= comp);
}

/// The entry-file component closes the name, dropping its trailing dot.
proof fn lemma_init_component_step(acc: Seq<char>)
    requires
        acc.len() > 0,
    ensures
        component_step("__init__.py"@, acc) == CompStep::Done(Some(acc.take(acc.len() - 1))),
{
    reveal_strlit(".");
    reveal_strlit("__init__.py");
    assert("__init__.py"@ != "."@) by {
        assert("__init__.py"@.len() == 11);
    }
}

proof fn lemma_round_trip_go(m: Seq<char>, comp: Seq<char>, acc: Seq<char>, kind: ModuleType)
    requires
        forall|i: int| 0 <= i < m.len() ==> m[i] != '/',
        forall|i: int| 0 <= i < m.len() - 1 ==> !(#[trigger] m[i] == '.' && m[i + 1] == '.'),
        m.len() > 0 ==> m[m.len() - 1] != '.',
        m.len() > 0 && m[0] == '.' ==> comp.len() > 0,
        m.len() == 0 ==> comp.len() > 0,
        forall|i: int| 0 <= i < comp.len() ==> comp[i] != '.' && comp[i] != '/',
        kind is File ==> last_comp_with(comp, m) != "__init__"@,
    ensures
        path_module_go(dots_to_slashes(m) + path_tail_of(kind), comp, acc) == Some(
            acc + comp + m,
        ),
    decreases m.len(),
{
    let s = dots_to_slashes(m) + path_tail_of(kind);
    if m.len() == 0 {
        assert(s =~= path_tail_of(kind));
        match kind {
            ModuleType::File => {
                reveal_strlit(".py");
                assert forall|i: int| 0 <= i < ".py"@.len() implies ".py"@[i] != '/' by {}
                lemma_go_plain_run(".py"@, comp, acc);
                lemma_py_component_step(comp, acc);
                assert(comp + ".py"@ =~= comp + ".py"@);
                assert(acc + comp =~= acc + comp + m);
            },
            ModuleType::Directory => {
                reveal_strlit("/__init__.py");
                reveal_strlit("__init__.py");
                assert(s[0] == '/');
                lemma_plain_component_step(comp, acc);
                let acc2 = acc + comp + "."@;
                assert(s.skip(1) =~= "__init__.py"@);
                assert forall|i: int|
                    0 <= i < "__init__.py"@.len() implies "__init__.py"@[i] != '/' by {}
                lemma_go_plain_run("__init__.py"@, Seq::<char>::empty(), acc2);
                assert(Seq::<char>::empty() + "__init__.py"@ =~= "__init__.py"@);
                reveal_strlit(".");
                assert(acc2.len() > 0);
                lemma_init_component_step(acc2);
                assert(acc2.take(acc2.len() - 1) =~= acc + comp + m);
            },
        }
    } else if m[0] == '.' {
        assert(s[0] == '/');
        lemma_plain_component_step(comp, acc);
        let acc2 = acc + comp + "."@;
        assert(s.skip(1) =~= dots_to_slashes(m.skip(1)) + path_tail_of(kind));
        assert(m.len() >= 2);
        assert(m.skip(1)[0] != '.') by {
            assert(m[0] == '.' && !(m[0] == '.' && m[1] == '.'));
        }
        lemma_round_trip_go(m.skip(1), Seq::<char>::empty(), acc2, kind);
        reveal_strlit(".");
        assert(acc2 + Seq::<char>::empty() + m.skip(1) =~= acc + comp + m);
    } else {
        assert(s[0] == m[0]);
        assert(s.skip(1) =~= dots_to_slashes(m.skip(1)) + path_tail_of(kind));
        let comp2 = comp.push(m[0]);
        lemma_round_trip_go(m.skip(1), comp2, acc, kind);
        assert(acc + comp2 + m.skip(1) =~= acc + comp + m);
    }
}

/// Round trip: converting a valid dotted name to its backing path and
/// back yields the same name, for either module kind. Validity excludes
/// exactly the leaf names whose path collides with a package's entry
/// file; for those the inverse necessarily answers with the package.
pub proof fn lemma_path_module_round_trip(m: Seq<char>, kind: ModuleType)
    requires
        valid_module_name(m, kind),
    ensures
        path_module_spec(module_path_spec(m, kind)) == Some(m),
{
    lemma_round_trip_go(m, Seq::<char>::empty(), Seq::<char>::empty(), kind);
    assert(module_path_spec(m, kind) == dots_to_slashes(m) + path_tail_of(kind));
    assert(Seq::<char>::empty() + Seq::<char>::empty() + m =~= m);
}

/// Computes the backing path of a dotted name: dots become separators and
/// the kind's file ending is appended.
pub fn module_2_path(module: &str, module_type: &ModuleType) -> (r: Result<String, ModuleError>)
    ensures
        r matches Ok(p) && p@ == module_path_spec(module@, *module_type),
{
    let n = module.unicode_len();
    let mut path = String::new();
    let mut i: usize = 0;
    while i < n
        invariant
            n == module@.len(),
            i <= n,
            path@ == dots_to_slashes(module@.take(i as int)),
        decreases n - i,
    {
        let c = module.get_char(i);
        if c == '.' {
            proof {
                reveal_strlit("/");
                assert("/"@ =~= seq!['/']);
            }
            path.append("/");
        } else {
            push_char_from(&mut path, module, i);
        }
        proof {
            assert(dots_to_slashes(module@.take(i + 1)) =~= dots_to_slashes(
                module@.take(i as int),
            ) + seq![if module@[i as int] == '.' {
                '/'
            } else {
                module@[i as int]
            }]);
        }
        i += 1;
    }
    assert(module@.take(n as int) =~= module@);
    match module_type {
        ModuleType::Directory => {
            path.append("/__init__.py");
        },
        ModuleType::File => {
            path.append(".py");
        },
    }
    Ok(path)
}

/// What processing one component yields at run time.
enum CompOutcome {
    Done(Option<String>),
    Go(String),
}

fn component_step_exec(comp: String, acc: String) -> (r: CompOutcome)
    ensures
        (match r {
            CompOutcome::Done(o) => component_step(comp@, acc@) == CompStep::Done(
                match o {
                    Some(ref a) => Some(a@),
                    None => None::<Seq<char>>,
                },
            ),
            CompOutcome::Go(a) => component_step(comp@, acc@) == CompStep::Go(a@),
        }),
{
    let cn = comp.as_str().unicode_len();
    if cn == 0 || str_eq(comp.as_str(), ".") {
        CompOutcome::Go(acc)
    } else if str_eq(comp.as_str(), "__init__.py") {
        let an = acc.as_str().unicode_len();
        if an > 0 {
            CompOutcome::Done(Some(acc.as_str().substring_char(0, an - 1).to_owned()))
        } else {
            CompOutcome::Done(Some(acc))
        }
    } else if crate::text::ends_with_str(comp.as_str(), ".py") {
        proof {
            reveal_strlit(".py");
            assert(".py"@.len() == 3);
        }
        let stem = comp.as_str().substring_char(0, cn - 3).to_owned();
        let r = acc.concat(stem.as_str());
        assert(comp@.subrange(0, cn - 3) =~= comp@.take(cn - 3));
        CompOutcome::Done(Some(r))
    } else {
        let mut r = acc.concat(comp.as_str());
        r.append(".");
        CompOutcome::Go(r)
    }
}

fn path_module_go_exec(path: &str, i: usize, comp: String, acc: String) -> (r: Option<String>)
    requires
        i <= path@.len(),
    ensures
        (match r {
            Some(ref s) => Some(s@),
            None => None::<Seq<char>>,
        }) == path_module_go(path@.skip(i as int), comp@, acc@),
    decreases path@.len() - i,
{
    let n = path.unicode_len();
    if i == n {
        match component_step_exec(comp, acc) {
            CompOutcome::Done(o) => o,
            CompOutcome::Go(_) => None,
        }
    } else {
        let c = path.get_char(i);
        proof {
            assert(path@.skip(i as int)[0] == path@[i as int]);
            assert(path@.skip(i as int).skip(1) =~= path@.skip(i + 1));
        }
        if c == '/' {
            match component_step_exec(comp, acc) {
                CompOutcome::Done(o) => o,
                CompOutcome::Go(acc2) => path_module_go_exec(path, i + 1, String::new(), acc2),
            }
        } else {
            let mut comp2 = comp;
            push_char_from(&mut comp2, path, i);
            assert(comp2@ =~= comp@.push(path@[i as int]));
            path_module_go_exec(path, i + 1, comp2, acc)
        }
    }
}

/// The length of the longest file path in the tree.
pub open spec fn max_path_len(files: Seq<crate::fs_model::SourceFile>) -> int
    decreases files.len(),
{
    if files.len() == 0 {
        0
    } else {
        let rest = max_path_len(files.drop_first());
        if files[0].path@.len() > rest {
            files[0].path@.len() as int
        } else {
            rest
        }
    }
}

proof fn lemma_max_path_len(files: Seq<crate::fs_model::SourceFile>, i: int)
    requires
        0 <= i < files.len(),
    ensures
        files[i].path@.len() <= max_path_len(files),
    decreases files.len(),
{
    if i > 0 {
        lemma_max_path_len(files.drop_first(), i - 1);
        assert(files.drop_first()[i - 1] == files[i]);
    }
}

/// A run of characters that can stand as one module-name component: it is
/// non-empty and holds neither separators nor dots.
pub open spec fn plain_ident_seq(c: Seq<char>) -> bool {
    c.len() > 0 && forall|i: int| 0 <= i < c.len() ==> c[i] != '/' && c[i] != '.'
}

/// The component name under which a path is a direct leaf child of the
/// package directory `dir`, if it is one: `dir/c.py` yields `c`.
pub open spec fn leaf_child_name(q: Seq<char>, dir: Seq<char>) -> Option<Seq<char>> {
    if (dir + "/"@).is_prefix_of(q) && ".py"@.is_suffix_of(q) && q.len() >= dir.len() + 5 {
        let c = q.subrange(dir.len() + 1 as int, q.len() - 3);
        if plain_ident_seq(c) && c != "__init__"@ {
            Some(c)
        } else {
            None
        }
    } else {
        None
    }
}

/// The component name under which a path is a direct package child of the
/// package directory `dir`, if it is one: `dir/c/__init__.py` yields `c`.
pub open spec fn pkg_child_name(q: Seq<char>, dir: Seq<char>) -> Option<Seq<char>> {
    if (dir + "/"@).is_prefix_of(q) && "/__init__.py"@.is_suffix_of(q) && q.len() >= dir.len()
        + 14 {
        let c = q.subrange(dir.len() + 1 as int, q.len() - 12);
        if plain_ident_seq(c) {
            Some(c)
        } else {
            None
        }
    } else {
        None
    }
}

/// The direct children a package directory has in the project tree, in
/// file order: each a component name with the kind of module it backs.
pub open spec fn child_entries(files: Seq<crate::fs_model::SourceFile>, dir: Seq<char>) -> Seq<
    (Seq<char>, ModuleType),
>
    decreases files.len(),
{
    if files.len() == 0 {
        Seq::<(Seq<char>, ModuleType)>::empty()
    } else {
        child_entries(files.drop_last(), dir) + (match leaf_child_name(
            files.last().path@,
            dir,
        ) {
            Some(c) => seq![(c, ModuleType::File)],
            None => match pkg_child_name(files.last().path@, dir) {
                Some(c) => seq![(c, ModuleType::Directory)],
                None => Seq::<(Seq<char>, ModuleType)>::empty(),
            },
        })
    }
}

fn plain_ident_str(c: &str) -> (b: bool)
    ensures
        b == plain_ident_seq(c@),
{
    let n = c.unicode_len();
    if n == 0 {
        return false;
    }
    let mut i: usize = 0;
    while i < n
        invariant
            n == c@.len(),
            i <= n,
            forall|k: int| 0 <= k < i ==> c@[k] != '/' && c@[k] != '.',
        decreases n - i,
    {
        let ch = c.get_char(i);
        if ch == '/' || ch == '.' {
            return false;
        }
        i += 1;
    }
    true
}

/// Tests whether `q` backs a direct leaf child of the directory `dir` and
/// yields the child's component name.
fn leaf_child_of(q: &str, dir: &str) -> (r: Option<String>)
    ensures
        (match r {
            Some(ref c) => Some(c@),
            None => None::<Seq<char>>,
        }) == leaf_child_name(q@, dir@),
{
    let qn = q.unicode_len();
    let dn = dir.unicode_len();
    let mut dslash = dir.to_owned();
    dslash.append("/");
    proof {
        reveal_strlit(".py");
        reveal_strlit("/");
    }
    if !crate::text::starts_with_str(q, dslash.as_str()) || !crate::text::ends_with_str(q, ".py")
        || qn < dn || qn - dn < 5 {
        return None;
    }
    let c = q.substring_char(dn + 1, qn - 3).to_owned();
    if plain_ident_str(c.as_str()) && !str_eq(c.as_str(), "__init__") {
        Some(c)
    } else {
        None
    }
}

/// Tests whether `q` backs a direct package child of the directory `dir`
/// and yields the child's component name.
fn pkg_child_of(q: &str, dir: &str) -> (r: Option<String>)
    ensures
        (match r {
            Some(ref c) => Some(c@),
            None => None::<Seq<char>>,
        }) == pkg_child_name(q@, dir@),
{
    let qn = q.unicode_len();
    let dn = dir.unicode_len();
    let mut dslash = dir.to_owned();
    dslash.append("/");
    proof {
        reveal_strlit("/__init__.py");
        reveal_strlit("/");
    }
    if !crate::text::starts_with_str(q, dslash.as_str()) || !crate::text::ends_with_str(
        q,
        "/__init__.py",
    ) || qn < dn || qn - dn < 14 {
        return None;
    }
    let c = q.substring_char(dn + 1, qn - 12).to_owned();
    if plain_ident_str(c.as_str()) {
        Some(c)
    } else {
        None
    }
}

/// Converts a backing path to the dotted name it denotes; fails for a
/// path that names no source file. Empty and `.` components are skipped.
pub fn path_2_module(path: &str) -> (r: Result<String, ModuleError>)
    ensures
        (match r {
            Ok(ref m) => path_module_spec(path@) == Some(m@),
            Err(e) => path_module_spec(path@) is None && e == ModuleError::InvalidPath,
        }),
{
    assert(path@.skip(0) =~= path@);
    match path_module_go_exec(path, 0, String::new(), String::new()) {
        Some(m) => Ok(m),
        None => Err(ModuleError::InvalidPath),
    }
}

/// Splitting a dotted name at a fresh dot splits its separated form at a
/// separator.
proof fn lemma_dots_concat(m: Seq<char>, c: Seq<char>)
    ensures
        dots_to_slashes(m + "."@ + c) == dots_to_slashes(m) + "/"@ + dots_to_slashes(c),
{
    reveal_strlit(".");
    reveal_strlit("/");
    assert(dots_to_slashes(m + "."@ + c) =~= dots_to_slashes(m) + "/"@ + dots_to_slashes(c)) by {
        assert forall|i: int|
            0 <= i < (m + "."@ + c).len() implies dots_to_slashes(m + "."@ + c)[i] == (
        dots_to_slashes(m) + "/"@ + dots_to_slashes(c))[i] by {
            if i < m.len() {
                assert((m + "."@ + c)[i] == m[i]);
            } else if i == m.len() {
                assert((m + "."@ + c)[i] == '.');
            } else {
                assert((m + "."@ + c)[i] == c[i - m.len() - 1]);
            }
        }
    }
}

/// A dot-free name is unchanged by the separation.
proof fn lemma_dots_plain(c: Seq<char>)
    requires
        forall|i: int| 0 <= i < c.len() ==> c[i] != '.',
    ensures
        dots_to_slashes(c) == c,
{
    assert(dots_to_slashes(c) =~= c);
}

/// What a path recognized as a direct leaf child is made of.
proof fn lemma_leaf_child_path(q: Seq<char>, dir: Seq<char>, c: Seq<char>)
    requires
        leaf_child_name(q, dir) == Some(c),
    ensures
        q == dir + "/"@ + c + ".py"@,
        plain_ident_seq(c),
        c != "__init__"@,
        q.len() == dir.len() + 4 + c.len(),
{
    reveal_strlit(".py");
    reveal_strlit("/");
    assert((dir + "/"@) == q.subrange(0, dir.len() + 1 as int));
    assert(".py"@ == q.subrange(q.len() - 3, q.len() as int));
    assert(q =~= dir + "/"@ + c + ".py"@) by {
        assert forall|i: int| 0 <= i < q.len() implies q[i] == (dir + "/"@ + c + ".py"@)[i] by {
            if i <= dir.len() {
                assert(q[i] == q.subrange(0, dir.len() + 1 as int)[i]);
            } else if i < q.len() - 3 {
                assert(c[i - dir.len() - 1] == q[i]);
            } else {
                assert(q[i] == q.subrange(q.len() - 3, q.len() as int)[i - (q.len() - 3)]);
            }
        }
    }
}

/// What a path recognized as a direct package child is made of.
proof fn lemma_pkg_child_path(q: Seq<char>, dir: Seq<char>, c: Seq<char>)
    requires
        pkg_child_name(q, dir) == Some(c),
    ensures
        q == dir + "/"@ + c + "/__init__.py"@,
        plain_ident_seq(c),
        q.len() == dir.len() + 13 + c.len(),
{
    reveal_strlit("/__init__.py");
    reveal_strlit("/");
    assert((dir + "/"@) == q.subrange(0, dir.len() + 1 as int));
    assert("/__init__.py"@ == q.subrange(q.len() - 12, q.len() as int));
    assert(q =~= dir + "/"@ + c + "/__init__.py"@) by {
        assert forall|i: int|
            0 <= i < q.len() implies q[i] == (dir + "/"@ + c + "/__init__.py"@)[i] by {
            if i <= dir.len() {
                assert(q[i] == q.subrange(0, dir.len() + 1 as int)[i]);
            } else if i < q.len() - 12 {
                assert(c[i - dir.len() - 1] == q[i]);
            } else {
                assert(q[i] == q.subrange(q.len() - 12, q.len() as int)[i - (q.len() - 12)]);
            }
        }
    }
}

/// A directory that must exist for the file at `path` to exist: a prefix
/// of `path` ending just before a separator.
pub open spec fn is_ancestor_dir(d: Seq<char>, path: Seq<char>) -> bool {
    exists|k: int| 0 <= k < path.len() && path[k] == '/' && d == path.take(k)
}

/// What creating the skeleton for `path` does to the tree: nothing when
/// the path already exists as a file or a directory; otherwise the file is
/// created empty, with every ancestor directory, and nothing else changes.
pub open spec fn make_tree_post(pre: FsTree, post: FsTree, path: Seq<char>) -> bool {
    if pre.has_file(path) || pre.has_dir(path) {
        post == pre
    } else {
        &&& forall|p: Seq<char>| #[trigger] post.has_file(p) <==> (pre.has_file(p) || p == path)
        &&& post.file_content(path) == Seq::<char>::empty()
        &&& post.file_ast(path) is None
        &&& forall|p: Seq<char>|
            p != path && pre.has_file(p) ==> (#[trigger] post.file_content(p))
                == pre.file_content(p) && post.file_ast(p) == pre.file_ast(p)
        &&& forall|d: Seq<char>|
            #[trigger] post.has_dir(d) <==> (pre.has_dir(d) || is_ancestor_dir(d, path))
    }
}

/// Creates the backing file for `path` and its ancestor directories when
/// nothing exists at `path` yet; reports success either way.
fn make_tree(fs: &mut FsTree, path: &str) -> (r: Result<(), ModuleError>)
    requires
        old(fs).wf(),
    ensures
        final(fs).wf(),
        r is Ok,
        make_tree_post(*old(fs), *final(fs), path@),
{
    if fs.file_exists(path) || fs.dir_exists(path) {
        return Ok(());
    }
    let n = path.unicode_len();
    let mut k: usize = 0;
    while k < n
        invariant
            fs.wf(),
            n == path@.len(),
            k <= n,
            fs.files@ == old(fs).files@,
            forall|d: Seq<char>|
                #[trigger] fs.has_dir(d) <==> (old(fs).has_dir(d) || (exists|j: int|
                    0 <= j < k && path@[j] == '/' && d == path@.take(j))),
        decreases n - k,
    {
        if path.get_char(k) == '/' {
            let d = path.substring_char(0, k).to_owned();
            let ghost pre_dirs = *fs;
            fs.create_dir(d.as_str());
            proof {
                assert(d@ =~= path@.take(k as int));
                assert forall|dd: Seq<char>| #[trigger]
                    fs.has_dir(dd) <==> (old(fs).has_dir(dd) || (exists|j: int|
                        0 <= j <= k && path@[j] == '/' && dd == path@.take(j))) by {
                    if fs.has_dir(dd) {
                        if !pre_dirs.has_dir(dd) {
                            assert(dd == path@.take(k as int));
                        }
                    }
                    if exists|j: int| 0 <= j <= k && path@[j] == '/' && dd == path@.take(j) {
                        let j = choose|j: int|
                            0 <= j <= k && path@[j] == '/' && dd == path@.take(j);
                        if j < k {
                            assert(pre_dirs.has_dir(dd));
                        } else {
                            assert(dd == d@);
                        }
                    }
                }
            }
        }
        k += 1;
    }
    let ghost pre_cf = *fs;
    fs.create_file(path);
    proof {
        assert(!pre_cf.has_file(path@));
        crate::fs_model::lemma_file_index_push(pre_cf.files@, fs.files@.last(), path@);
        assert(fs.file_content(path@) == fs.files@.last().content@);
        assert(fs.file_ast(path@) == fs.files@.last().ast);
        assert(fs.dirs@ == pre_cf.dirs@);
        assert forall|d: Seq<char>| #[trigger]
            fs.has_dir(d) <==> (old(fs).has_dir(d) || is_ancestor_dir(d, path@)) by {
            if fs.has_dir(d) {
                let i = choose|i: int| 0 <= i < fs.dirs@.len() && (#[trigger] fs.dirs@[i])@ == d;
                assert(pre_cf.dirs@[i]@ == d);
                assert(pre_cf.has_dir(d));
            }
            if pre_cf.has_dir(d) {
                let i = choose|i: int|
                    0 <= i < pre_cf.dirs@.len() && (#[trigger] pre_cf.dirs@[i])@ == d;
                assert(fs.dirs@[i]@ == d);
                assert(fs.has_dir(d));
            }
        }
    }
    Ok(())
}

/// Creating a skeleton never touches an existing file: every file of the
/// earlier tree is still there with its text and stored statements.
pub proof fn lemma_make_tree_preserves(pre: FsTree, post: FsTree, path: Seq<char>)
    requires
        make_tree_post(pre, post, path),
    ensures
        forall|p: Seq<char>| pre.has_file(p) ==> #[trigger] post.has_file(p),
        forall|p: Seq<char>|
            pre.has_file(p) ==> #[trigger] post.file_content(p) == pre.file_content(p),
        forall|p: Seq<char>| pre.has_file(p) ==> #[trigger] post.file_ast(p) == pre.file_ast(p),
{
    if !(pre.has_file(path) || pre.has_dir(path)) {
        assert forall|p: Seq<char>| pre.has_file(p) implies #[trigger] post.has_file(p) by {
            assert(p != path);
        }
        assert forall|p: Seq<char>|
            pre.has_file(p) implies #[trigger] post.file_content(p) == pre.file_content(p) by {
            assert(p != path);
        }
        assert forall|p: Seq<char>|
            pre.has_file(p) implies #[trigger] post.file_ast(p) == pre.file_ast(p) by {
            assert(p != path);
            assert(post.file_content(p) == pre.file_content(p));
        }
    }
}

/// A file the skeleton run itself brought into being is empty and
/// unparsed.
pub proof fn lemma_make_tree_created_empty(pre: FsTree, post: FsTree, path: Seq<char>)
    requires
        make_tree_post(pre, post, path),
        !pre.has_file(path),
        post.has_file(path),
    ensures
        post.file_content(path) == Seq::<char>::empty(),
        post.file_ast(path) is None,
{
    if pre.has_file(path) || pre.has_dir(path) {
        assert(post == pre);
    }
}

/// Building is idempotent: a second build of the same path finds it in
/// place and changes nothing, reporting success both times.
pub proof fn lemma_build_idempotent(fs0: FsTree, fs1: FsTree, fs2: FsTree, path: Seq<char>)
    requires
        make_tree_post(fs0, fs1, path),
        make_tree_post(fs1, fs2, path),
    ensures
        fs2 == fs1,
{
    if !(fs0.has_file(path) || fs0.has_dir(path)) {
        assert(fs1.has_file(path));
    }
}

/// One node of the module tree.
#[derive(Debug)]
pub struct ModuleManager {
    pub path: String,
    pub module: String,
    pub classes: Vec<Class>,
    pub functions: Vec<Method>,
    pub vars: Vec<Attribute>,
    pub module_type: ModuleType,
    pub sub_modules: Vec<ModuleManager>,
}

/// The statements held for a file, or none for an unparsed file.
pub open spec fn stored_ast(fs: FsTree, p: Seq<char>) -> Seq<crate::py_ast::StmtNode> {
    match fs.file_ast(p) {
        Some(a) => a@,
        None => Seq::<crate::py_ast::StmtNode>::empty(),
    }
}

/// The nodes `subs` are exactly the loaded children described by
/// `entries`, under the dotted name `parent`.
pub open spec fn children_ok(
    subs: Seq<ModuleManager>,
    entries: Seq<(Seq<char>, ModuleType)>,
    parent: Seq<char>,
    fs: FsTree,
) -> bool
    decreases subs, 0int,
{
    &&& subs.len() == entries.len()
    &&& forall|i: int|
        0 <= i < subs.len() ==> {
            let sub = #[trigger] subs[i];
            &&& sub.module@ == parent + "."@ + entries[i].0
            &&& sub.module_type == entries[i].1
            &&& sub.wf()
            &&& sub.well_loaded(fs)
        }
}

impl ModuleManager {
    /// The backing path agrees with the dotted name and kind.
    pub open spec fn wf(&self) -> bool {
        self.path@ == module_path_spec(self.module@, self.module_type)
    }

    /// The node carries no definitions and no children.
    pub open spec fn is_empty_node(&self) -> bool {
        &&& self.classes@.len() == 0
        &&& self.functions@.len() == 0
        &&& self.vars@.len() == 0
        &&& self.sub_modules@.len() == 0
    }

    /// The directory backing a package node: its path without the
    /// entry-file suffix.
    pub open spec fn dir_of_spec(&self) -> Seq<char> {
        self.path@.take(self.path@.len() - 12)
    }

    /// The node faithfully reflects the project tree: its definitions are
    /// the extraction of its file's stored statements and text, and, for a
    /// package, its children are the loaded direct children of its
    /// directory, recursively.
    pub open spec fn well_loaded(self, fs: FsTree) -> bool
        decreases self, 1int,
    {
        &&& fs.has_file(self.path@)
        &&& crate::ast::is_extracted_root(
            self.classes@,
            self.functions@,
            self.vars@,
            stored_ast(fs, self.path@),
            fs.file_content(self.path@),
            self.path@,
        )
        &&& (self.module_type is File ==> self.sub_modules@.len() == 0)
        &&& (self.module_type is Directory ==> children_ok(
            self.sub_modules@,
            child_entries(fs.files@, self.dir_of_spec()),
            self.module@,
            fs,
        ))
    }

    /// Creates a node for a dotted name and kind. When `build` is set the
    /// backing file is created if absent and the node is loaded from the
    /// project tree; otherwise the node starts empty and the tree is left
    /// untouched.
    pub fn new(module: &str, module_type: ModuleType, build: bool, fs: &mut FsTree) -> (r: Result<
        ModuleManager,
        ModuleError,
    >)
        requires
            old(fs).wf(),
        ensures
            final(fs).wf(),
            r matches Ok(m) ==> m.wf() && m.module@ == module@ && m.module_type == module_type
                && m.path@ == module_path_spec(module@, module_type),
            !build ==> *final(fs) == *old(fs) && (r matches Ok(m) && m.is_empty_node()),
            build ==> make_tree_post(
                *old(fs),
                *final(fs),
                module_path_spec(module@, module_type),
            ),
            build ==> (r is Ok <==> final(fs).has_file(module_path_spec(module@, module_type))),
            build ==> (r matches Ok(m) ==> m.well_loaded(*final(fs))),
    {
        let path = match module_2_path(module, &module_type) {
            Ok(p) => p,
            Err(e) => {
                return Err(e);
            },
        };
        let mut module_manager = ModuleManager {
            path,
            module: module.to_owned(),
            classes: Vec::new(),
            functions: Vec::new(),
            vars: Vec::new(),
            module_type,
            sub_modules: Vec::new(),
        };
        if build {
            match module_manager.build(fs) {
                Ok(()) => {},
                Err(e) => {
                    return Err(e);
                },
            }
            match module_manager.reload(fs) {
                Ok(()) => {},
                Err(e) => {
                    return Err(e);
                },
            }
        }
        Ok(module_manager)
    }

    /// Creates the node's backing file and ancestor directories when they
    /// do not exist yet; an existing path is left untouched and reported
    /// as success.
    pub fn build(&self, fs: &mut FsTree) -> (r: Result<(), ModuleError>)
        requires
            old(fs).wf(),
        ensures
            final(fs).wf(),
            r is Ok,
            make_tree_post(*old(fs), *final(fs), self.path@),
    {
        make_tree(fs, self.path.as_str())
    }

    /// Collects the loaded direct children of a package node from the
    /// project tree; a leaf node has none.
    fn get_sub_modules(&self, fs: &FsTree) -> (r: Result<Vec<ModuleManager>, ModuleError>)
        requires
            fs.wf(),
            self.wf(),
        ensures
            self.module_type is File ==> (r matches Ok(v) && v@.len() == 0),
            self.module_type is Directory ==> (r matches Ok(v) && children_ok(
                v@,
                child_entries(fs.files@, self.dir_of_spec()),
                self.module@,
                *fs,
            )),
        decreases max_path_len(fs.files@) - self.module@.len(), 0int,
    {
        let mut subs: Vec<ModuleManager> = Vec::new();
        if self.module_type == ModuleType::File {
            return Ok(subs);
        }
        proof {
            reveal_strlit("/__init__.py");
            assert(self.path@.len() == self.module@.len() + 12);
        }
        let plen = self.path.as_str().unicode_len();
        let dir = self.path.as_str().substring_char(0, plen - 12).to_owned();
        proof {
            assert(dir@ =~= self.dir_of_spec());
            assert(dir@ =~= dots_to_slashes(self.module@));
        }
        let mut k: usize = 0;
        while k < fs.files.len()
            invariant
                fs.wf(),
                self.wf(),
                self.module_type is Directory,
                k <= fs.files@.len(),
                dir@ == self.dir_of_spec(),
                dir@ == dots_to_slashes(self.module@),
                dir@.len() == self.module@.len(),
                children_ok(
                    subs@,
                    child_entries(fs.files@.take(k as int), dir@),
                    self.module@,
                    *fs,
                ),
            decreases fs.files@.len() - k,
        {
            proof {
                assert(fs.files@.take(k + 1).drop_last() =~= fs.files@.take(k as int));
                assert(fs.files@.take(k + 1).last() == fs.files@[k as int]);
            }
            let ghost old_subs = subs@;
            let qs: &str = fs.files[k].path.as_str();
            let mut found: Option<(String, ModuleType)> = None;
            match leaf_child_of(qs, dir.as_str()) {
                Some(c) => {
                    found = Some((c, ModuleType::File));
                },
                None => {
                    match pkg_child_of(qs, dir.as_str()) {
                        Some(c) => {
                            found = Some((c, ModuleType::Directory));
                        },
                        None => {},
                    }
                },
            }
            match found {
                Some((c, kind)) => {
                    proof {
                        reveal_strlit(".");
                        if kind is File {
                            lemma_leaf_child_path(qs@, dir@, c@);
                        } else {
                            lemma_pkg_child_path(qs@, dir@, c@);
                        }
                    }
                    let mut name = self.module.clone();
                    name.append(".");
                    name.append(c.as_str());
                    let child_path = match module_2_path(name.as_str(), &kind) {
                        Ok(p) => p,
                        Err(e) => {
                            return Err(e);
                        },
                    };
                    proof {
                        lemma_dots_concat(self.module@, c@);
                        lemma_dots_plain(c@);
                        assert(name@ == self.module@ + "."@ + c@);
                        assert(child_path@ =~= qs@);
                        crate::fs_model::lemma_seq_has_file_of_index(fs.files@, k as int);
                        lemma_max_path_len(fs.files@, k as int);
                    }
                    let mut child = ModuleManager {
                        path: child_path,
                        module: name,
                        classes: Vec::new(),
                        functions: Vec::new(),
                        vars: Vec::new(),
                        module_type: kind,
                        sub_modules: Vec::new(),
                    };
                    proof {
                        assert(child.wf());
                        assert(fs.has_file(child.path@));
                        assert(child.module@.len() > self.module@.len());
                        assert(child.module@.len() + 3 <= max_path_len(fs.files@));
                    }
                    let reload_result = child.reload(fs);
                    proof {
                        assert(reload_result is Ok);
                        assert(child.well_loaded(*fs));
                    }
                    subs.push(child);
                    proof {
                        assert(subs@ =~= old_subs.push(subs@.last()));
                        assert(child_entries(fs.files@.take(k + 1), dir@) =~= child_entries(
                            fs.files@.take(k as int),
                            dir@,
                        ) + seq![(c@, kind)]);
                    }
                },
                None => {
                    proof {
                        assert(child_entries(fs.files@.take(k + 1), dir@) =~= child_entries(
                            fs.files@.take(k as int),
                            dir@,
                        ));
                    }
                },
            }
            k += 1;
        }
        proof {
            assert(fs.files@.take(fs.files@.len() as int) =~= fs.files@);
        }
        Ok(subs)
    }

    /// Re-parses the node's backing file, replacing its definitions, and,
    /// for a package, re-discovers and recursively reloads its children.
    /// Fails, leaving the node untouched, when the backing file is gone.
    pub fn reload(&mut self, fs: &FsTree) -> (r: Result<(), ModuleError>)
        requires
            fs.wf(),
            old(self).wf(),
        ensures
            final(self).wf(),
            final(self).module == old(self).module,
            final(self).path == old(self).path,
            final(self).module_type == old(self).module_type,
            fs.has_file(old(self).path@) ==> r is Ok && final(self).well_loaded(*fs),
            !fs.has_file(old(self).path@) ==> (r matches Err(e) && e == ModuleError::IoFailure)
                && *final(self) == *old(self),
        decreases max_path_len(fs.files@) - old(self).module@.len(), 1int,
    {
        let content = match fs.read_file(self.path.as_str()) {
            Ok(c) => c,
            Err(e) => {
                return Err(e);
            },
        };
        let empty_ast: Vec<crate::py_ast::StmtNode> = Vec::new();
        let parsed = match fs.ast_of(self.path.as_str()) {
            Some(a) => crate::ast::parse_root_ast(a, &content, &self.path),
            None => {
                assert(crate::py_ast::ast_ok(empty_ast@, content@.len()));
                crate::ast::parse_root_ast(&empty_ast, &content, &self.path)
            },
        };
        let (classes, functions, vars) = match parsed {
            Ok(t) => t,
            Err(e) => {
                return Err(e);
            },
        };
        self.classes = classes;
        self.functions = functions;
        self.vars = vars;
        let subs = match self.get_sub_modules(fs) {
            Ok(v) => v,
            Err(e) => {
                return Err(e);
            },
        };
        self.sub_modules = subs;
        Ok(())
    }

    /// Appends a child module to a package node, building its backing
    /// file when asked to; fails on a leaf node, which cannot contain
    /// other modules, leaving both the node and the tree unchanged.
    pub fn add_sub_module(
        &mut self,
        sub_module: &str,
        module_type: ModuleType,
        build: bool,
        fs: &mut FsTree,
    ) -> (r: Result<(), ModuleError>)
        requires
            old(fs).wf(),
            old(self).wf(),
        ensures
            final(fs).wf(),
            final(self).wf(),
            old(self).module_type is File ==> (r matches Err(e) && e
                == ModuleError::IllegalOperation) && *final(self) == *old(self) && *final(fs)
                == *old(fs),
            old(self).module_type is Directory && !build ==> *final(fs) == *old(fs),
            old(self).module_type is Directory && build ==> make_tree_post(
                *old(fs),
                *final(fs),
                module_path_spec(old(self).module@ + "."@ + sub_module@, module_type),
            ),
            old(self).module_type is Directory && r is Ok ==> {
                &&& final(self).sub_modules@ == old(self).sub_modules@.push(
                    final(self).sub_modules@.last(),
                )
                &&& final(self).sub_modules@.last().module@ == old(self).module@ + "."@
                    + sub_module@
                &&& final(self).sub_modules@.last().module_type == module_type
                &&& final(self).sub_modules@.last().wf()
                &&& final(self).module == old(self).module
                &&& final(self).path == old(self).path
                &&& final(self).module_type == old(self).module_type
                &&& final(self).classes == old(self).classes
                &&& final(self).functions == old(self).functions
                &&& final(self).vars == old(self).vars
            },
            old(self).module_type is Directory && !build ==> r is Ok,
            old(self).module_type is Directory && build && r is Ok ==> final(fs).has_file(
                module_path_spec(old(self).module@ + "."@ + sub_module@, module_type),
            ),
            old(self).module_type is Directory && build && r is Err ==> !final(fs).has_file(
                module_path_spec(old(self).module@ + "."@ + sub_module@, module_type),
            ),
            old(self).module_type is Directory && r is Err ==> *final(self) == *old(self),
    {
        if self.module_type == ModuleType::File {
            return Err(ModuleError::IllegalOperation);
        }
        let mut name = self.module.clone();
        name.append(".");
        name.append(sub_module);
        proof {
            reveal_strlit(".");
            assert(name@ == self.module@ + "."@ + sub_module@);
        }
        let sub_module_manager = match ModuleManager::new(name.as_str(), module_type, build, fs) {
            Ok(m) => m,
            Err(e) => {
                return Err(e);
            },
        };
        self.sub_modules.push(sub_module_manager);
        proof {
            assert(self.sub_modules@ =~= old(self).sub_modules@.push(self.sub_modules@.last()));
        }
        Ok(())
    }
}

/// The source and destination directories of a move are safe to merge:
/// equal, or lying outside one another.
pub open spec fn dir_move_safe(from: Seq<char>, to: Seq<char>) -> bool {
    from == to || (!crate::fs_model::under_dir(to, from) && !crate::fs_model::under_dir(from, to))
}

/// What moving a package from the directory `od` to `nd` and then
/// rewriting the dotted name leaves behind: every file under `od` stands
/// at its re-rooted path with its text rewritten, the old paths are gone
/// when the directories differ, and every other file survives — rewritten
/// too — unless a moved file landed on its path.
pub open spec fn dir_moved_post(
    pre: FsTree,
    post: FsTree,
    od: Seq<char>,
    nd: Seq<char>,
    old_name: Seq<char>,
    new_name: Seq<char>,
) -> bool {
    &&& forall|q: Seq<char>|
        pre.has_file(q) && crate::fs_model::under_dir(q, od) ==> #[trigger] post.has_file(
            crate::fs_model::repath(q, od, nd),
        )
    &&& forall|q: Seq<char>|
        pre.has_file(q) && crate::fs_model::under_dir(q, od) ==> #[trigger] post.file_content(
            crate::fs_model::repath(q, od, nd),
        ) == (if ".py"@.is_suffix_of(crate::fs_model::repath(q, od, nd)) {
            crate::text::replace_token_spec(pre.file_content(q), old_name, new_name, true)
        } else {
            pre.file_content(q)
        })
    &&& (od != nd ==> forall|q: Seq<char>|
        crate::fs_model::under_dir(q, od) ==> !(#[trigger] post.has_file(q)))
    &&& forall|p: Seq<char>|
        pre.has_file(p) && !crate::fs_model::under_dir(p, od) && !crate::fs_model::is_move_target(
            pre,
            p,
            od,
            nd,
        ) ==> #[trigger] post.has_file(p)
    &&& forall|p: Seq<char>|
        pre.has_file(p) && !crate::fs_model::under_dir(p, od) && !crate::fs_model::is_move_target(
            pre,
            p,
            od,
            nd,
        ) ==> #[trigger] post.file_content(p) == (if ".py"@.is_suffix_of(p) {
            crate::text::replace_token_spec(pre.file_content(p), old_name, new_name, true)
        } else {
            pre.file_content(p)
        })
}

impl ModuleManager {
    /// Relocates the module to a new dotted name: builds the destination
    /// skeleton, moves the backing file or directory contents, rewrites
    /// every reference to the old dotted name across the project, updates
    /// the node and reloads it. A failing step aborts the operation; no
    /// rollback is attempted.
    #[verifier::rlimit(60)]
    pub fn mv(&mut self, to: &str, fs: &mut FsTree) -> (r: Result<(), ModuleError>)
        requires
            old(fs).wf(),
            old(self).wf(),
        ensures
            final(fs).wf(),
            final(self).module_type == old(self).module_type,
            r is Ok ==> final(self).wf() && final(self).module@ == to@ && final(self).path@
                == module_path_spec(to@, old(self).module_type) && final(self).well_loaded(*final(fs)),
            old(self).module_type is File && old(fs).has_file(old(self).path@) ==> r is Ok,
            old(self).module_type is File && !old(fs).has_file(old(self).path@) && old(
                self,
            ).path@ != module_path_spec(to@, ModuleType::File) ==> r is Err,
            old(self).module_type is File && old(fs).has_file(old(self).path@) ==> {
                let op = old(self).path@;
                let np = module_path_spec(to@, ModuleType::File);
                &&& final(fs).has_file(np)
                &&& (op != np ==> !final(fs).has_file(op))
                &&& final(fs).file_content(np) == crate::text::replace_token_spec(
                    old(fs).file_content(op),
                    old(self).module@,
                    to@,
                    true,
                )
                &&& forall|p: Seq<char>|
                    p != op && p != np && old(fs).has_file(p) ==> #[trigger] final(fs).has_file(p) && final(fs).file_content(p) == (if ".py"@.is_suffix_of(p) {
                        crate::text::replace_token_spec(
                            old(fs).file_content(p),
                            old(self).module@,
                            to@,
                            true,
                        )
                    } else {
                        old(fs).file_content(p)
                    })
                &&& forall|p: Seq<char>|
                    #[trigger] final(fs).has_file(p) ==> old(fs).has_file(p) || p == np
            },
            old(self).module_type is Directory && !dir_move_safe(
                old(self).dir_of_spec(),
                dots_to_slashes(to@),
            ) ==> r is Err && *final(fs) == *old(fs) && *final(self) == *old(self),
            old(self).module_type is Directory && dir_move_safe(
                old(self).dir_of_spec(),
                dots_to_slashes(to@),
            ) && old(fs).has_file(old(self).path@) ==> r is Ok,
            old(self).module_type is Directory && dir_move_safe(
                old(self).dir_of_spec(),
                dots_to_slashes(to@),
            ) && old(fs).has_file(old(self).path@) ==> dir_moved_post(
                *old(fs),
                *final(fs),
                old(self).dir_of_spec(),
                dots_to_slashes(to@),
                old(self).module@,
                to@,
            ),
    {
        let new_path = match module_2_path(to, &self.module_type) {
            Ok(p) => p,
            Err(e) => {
                return Err(e);
            },
        };
        proof {
            reveal_strlit("/__init__.py");
            reveal_strlit(".py");
        }
        if self.module_type == ModuleType::Directory {
            let plen = self.path.as_str().unicode_len();
            let old_dir = self.path.as_str().substring_char(0, plen - 12).to_owned();
            let nplen = new_path.as_str().unicode_len();
            let new_dir = new_path.as_str().substring_char(0, nplen - 12).to_owned();
            proof {
                assert(old_dir@ =~= self.dir_of_spec());
                assert(new_dir@ =~= dots_to_slashes(to@));
            }
            let mut ods = old_dir.clone();
            ods.append("/");
            let mut nds = new_dir.clone();
            nds.append("/");
            proof {
                reveal_strlit("/");
            }
            let safe = str_eq(old_dir.as_str(), new_dir.as_str()) || (!crate::text::starts_with_str(
                new_dir.as_str(),
                ods.as_str(),
            ) && !crate::text::starts_with_str(old_dir.as_str(), nds.as_str()));
            if !safe {
                return Err(ModuleError::IoFailure);
            }
            if !fs.file_exists(self.path.as_str()) {
                return Err(ModuleError::IoFailure);
            }
            match make_tree(fs, new_path.as_str()) {
                Ok(()) => {},
                Err(e) => {
                    return Err(e);
                },
            }
            let ghost fs1 = *fs;
            proof {
                assert(fs1.has_file(old(self).path@)) by {
                    if !(old(fs).has_file(new_path@) || old(fs).has_dir(new_path@)) {
                        assert(fs1.has_file(old(self).path@));
                    }
                }
            }
            fs.move_dir_contents(old_dir.as_str(), new_dir.as_str());
            proof {
                assert(crate::fs_model::under_dir(old(self).path@, old_dir@)) by {
                    assert((old_dir@ + "/"@) =~= old(self).path@.subrange(
                        0,
                        old_dir@.len() + 1 as int,
                    ));
                }
                assert(crate::fs_model::repath(old(self).path@, old_dir@, new_dir@) =~= new_path@)
                    by {
                    crate::fs_model::lemma_under_dir_parts(old(self).path@, old_dir@);
                }
                assert(fs.has_file(new_path@));
            }
            let ghost fs2 = *fs;
            match ModuleManager::replace_in_root(self.module.as_str(), to, fs) {
                Ok(()) => {},
                Err(e) => {
                    return Err(e);
                },
            }
            proof {
                let od = old(self).dir_of_spec();
                let nd = dots_to_slashes(to@);
                let fs0 = *old(fs);
                assert(old_dir@ == od);
                assert(new_dir@ == nd);
                let created = !(fs0.has_file(new_path@) || fs0.has_dir(new_path@));
                if !created {
                    assert(fs1 == fs0);
                }
                if od == nd {
                    assert(new_path@ =~= old(self).path@);
                    assert(!created);
                }
                assert forall|q: Seq<char>|
                    fs0.has_file(q) && crate::fs_model::under_dir(q, od) implies fs1.has_file(q)
                    && fs1.file_content(q) == fs0.file_content(q) && fs1.file_ast(q)
                    == fs0.file_ast(q) by {
                    if created {
                        assert(q != new_path@);
                    }
                }
                assert forall|p: Seq<char>|
                    !crate::fs_model::is_move_target(fs0, p, od, nd) implies !crate::fs_model::is_move_target(
                    fs1,
                    p,
                    od,
                    nd,
                ) by {
                    if crate::fs_model::is_move_target(fs1, p, od, nd) {
                        let q = choose|q: Seq<char>|
                            #[trigger] fs1.has_file(q) && crate::fs_model::under_dir(q, od) && p
                                == crate::fs_model::repath(q, od, nd);
                        if created && !fs0.has_file(q) {
                            assert(q == new_path@);
                            crate::fs_model::lemma_target_not_under(old(self).path@, od, nd);
                        } else {
                            assert(fs0.has_file(q));
                        }
                    }
                }
                assert forall|q: Seq<char>|
                    fs0.has_file(q) && crate::fs_model::under_dir(q, od) implies #[trigger] fs
                    .has_file(crate::fs_model::repath(q, od, nd)) by {
                    assert(fs2.has_file(crate::fs_model::repath(q, od, nd)));
                }
                assert forall|q: Seq<char>|
                    fs0.has_file(q) && crate::fs_model::under_dir(q, od) implies #[trigger] fs
                    .file_content(crate::fs_model::repath(q, od, nd)) == (if ".py"@.is_suffix_of(
                    crate::fs_model::repath(q, od, nd),
                ) {
                    crate::text::replace_token_spec(
                        fs0.file_content(q),
                        old(self).module@,
                        to@,
                        true,
                    )
                } else {
                    fs0.file_content(q)
                }) by {
                    let t = crate::fs_model::repath(q, od, nd);
                    assert(fs2.has_file(t));
                    assert(fs2.file_content(t) == fs1.file_content(q));
                }
                if od != nd {
                    assert forall|q: Seq<char>|
                        crate::fs_model::under_dir(q, od) implies !(#[trigger] fs.has_file(
                        q,
                    )) by {
                        if fs.has_file(q) {
                            assert(fs2.has_file(q));
                            if crate::fs_model::is_move_target(fs1, q, od, nd) {
                                let src = choose|src: Seq<char>|
                                    #[trigger] fs1.has_file(src) && crate::fs_model::under_dir(
                                        src,
                                        od,
                                    ) && q == crate::fs_model::repath(src, od, nd);
                                crate::fs_model::lemma_target_not_under(src, od, nd);
                            }
                        }
                    }
                }
                assert forall|p: Seq<char>|
                    fs0.has_file(p) && !crate::fs_model::under_dir(p, od)
                        && !crate::fs_model::is_move_target(fs0, p, od, nd) implies #[trigger] fs
                    .has_file(p) by {
                    assert(fs1.has_file(p)) by {
                        if created {
                            assert(p != new_path@);
                        }
                    }
                    assert(!crate::fs_model::is_move_target(fs1, p, od, nd));
                    assert(fs2.has_file(p));
                }
                assert forall|p: Seq<char>|
                    fs0.has_file(p) && !crate::fs_model::under_dir(p, od)
                        && !crate::fs_model::is_move_target(fs0, p, od, nd) implies #[trigger] fs
                    .file_content(p) == (if ".py"@.is_suffix_of(p) {
                    crate::text::replace_token_spec(
                        fs0.file_content(p),
                        old(self).module@,
                        to@,
                        true,
                    )
                } else {
                    fs0.file_content(p)
                }) by {
                    assert(fs1.has_file(p) && fs1.file_content(p) == fs0.file_content(p)) by {
                        if created {
                            assert(p != new_path@);
                        }
                    }
                    assert(!crate::fs_model::is_move_target(fs1, p, od, nd));
                    assert(fs2.has_file(p));
                    assert(fs2.file_content(p) == fs1.file_content(p));
                }
            }
            self.path = new_path;
            self.module = to.to_owned();
            match self.reload(fs) {
                Ok(()) => {},
                Err(e) => {
                    return Err(e);
                },
            }
            Ok(())
        } else {
            match make_tree(fs, new_path.as_str()) {
                Ok(()) => {},
                Err(e) => {
                    return Err(e);
                },
            }
            let ghost fs1 = *fs;
            let rename_result = fs.rename_file(self.path.as_str(), new_path.as_str());
            match rename_result {
                Ok(()) => {},
                Err(e) => {
                    proof {
                        assert(!fs1.has_file(old(self).path@));
                        assert(!old(fs).has_file(old(self).path@)) by {
                            if old(fs).has_file(old(self).path@) {
                                if !(old(fs).has_file(new_path@) || old(fs).has_dir(new_path@)) {
                                    assert(fs1.has_file(old(self).path@));
                                }
                            }
                        }
                    }
                    return Err(e);
                },
            }
            let ghost fs2 = *fs;
            match ModuleManager::replace_in_root(self.module.as_str(), to, fs) {
                Ok(()) => {},
                Err(e) => {
                    return Err(e);
                },
            }
            proof {
                assert(fs.has_file(new_path@));
                assert(".py"@.is_suffix_of(new_path@)) by {
                    assert(new_path@.subrange(new_path@.len() - 3, new_path@.len() as int) =~= ".py"@);
                }
                if old(fs).has_file(old(self).path@) {
                    assert(fs.file_content(new_path@) == crate::text::replace_token_spec(
                        old(fs).file_content(old(self).path@),
                        old(self).module@,
                        to@,
                        true,
                    )) by {
                        assert(fs1.file_content(old(self).path@) == old(fs).file_content(
                            old(self).path@,
                        )) by {
                            if !(old(fs).has_file(new_path@) || old(fs).has_dir(new_path@)) {
                                assert(old(self).path@ != new_path@);
                            }
                        }
                        assert(fs2.file_content(new_path@) == fs1.file_content(old(self).path@));
                    }
                    assert forall|p: Seq<char>|
                        p != old(self).path@ && p != new_path@ && old(fs).has_file(p) implies
                        #[trigger] fs.has_file(p) && fs.file_content(p) == (if ".py"@
                        .is_suffix_of(p) {
                        crate::text::replace_token_spec(
                            old(fs).file_content(p),
                            old(self).module@,
                            to@,
                            true,
                        )
                    } else {
                        old(fs).file_content(p)
                    }) by {
                        assert(fs1.has_file(p));
                        assert(fs1.file_content(p) == old(fs).file_content(p));
                        assert(fs2.has_file(p));
                        assert(fs2.file_content(p) == fs1.file_content(p));
                    }
                    assert forall|p: Seq<char>| #[trigger]
                        fs.has_file(p) implies old(fs).has_file(p) || p == new_path@ by {
                        assert(fs2.has_file(p));
                        if p != new_path@ {
                            assert(fs1.has_file(p));
                            if !(old(fs).has_file(new_path@) || old(fs).has_dir(new_path@)) {
                                assert(old(fs).has_file(p));
                            }
                        }
                    }
                }
            }
            self.path = new_path;
            self.module = to.to_owned();
            match self.reload(fs) {
                Ok(()) => {},
                Err(e) => {
                    proof {
                        assert(false);
                    }
                    return Err(e);
                },
            }
            Ok(())
        }
    }
}

/// The non-empty `find` blocks of a file's variables, in order.
pub open spec fn attr_blocks(vars: Seq<Attribute>, q: Seq<char>, prefix: Seq<char>) -> Seq<
    Seq<char>,
>
    decreases vars.len(),
{
    if vars.len() == 0 {
        Seq::<Seq<char>>::empty()
    } else {
        attr_blocks(vars.drop_last(), q, prefix) + ({
            let b = vars.last().find_spec(q, None, prefix);
            if b.len() > 0 {
                seq![b]
            } else {
                Seq::<Seq<char>>::empty()
            }
        })
    }
}

/// The non-empty `find` blocks of a file's functions, in order.
pub open spec fn method_blocks(fns: Seq<Method>, q: Seq<char>, prefix: Seq<char>) -> Seq<
    Seq<char>,
>
    decreases fns.len(),
{
    if fns.len() == 0 {
        Seq::<Seq<char>>::empty()
    } else {
        method_blocks(fns.drop_last(), q, prefix) + ({
            let b = fns.last().find_spec(q, None, prefix);
            if b.len() > 0 {
                seq![b]
            } else {
                Seq::<Seq<char>>::empty()
            }
        })
    }
}

/// The non-empty `find` blocks of a file's classes, in order.
pub open spec fn class_blocks(cls: Seq<Class>, q: Seq<char>, prefix: Seq<char>) -> Seq<Seq<char>>
    decreases cls.len(),
{
    if cls.len() == 0 {
        Seq::<Seq<char>>::empty()
    } else {
        class_blocks(cls.drop_last(), q, prefix) + ({
            let b = cls.last().find_spec(q, None, prefix);
            if b.len() > 0 {
                seq![b]
            } else {
                Seq::<Seq<char>>::empty()
            }
        })
    }
}

impl ModuleManager {
    /// The path shown for this node: a package shows its directory, a
    /// leaf its file.
    pub open spec fn display_path_spec(&self) -> Seq<char> {
        if self.module_type is Directory && self.path@.len() >= 12 {
            self.path@.take(self.path@.len() - 12)
        } else {
            self.path@
        }
    }

    /// The header line that opens this node's block.
    pub open spec fn header_spec(&self, prefix: Seq<char>) -> Seq<char> {
        prefix + "|--"@ + (match self.module_type {
            ModuleType::File => "[f] "@,
            ModuleType::Directory => "[d] "@,
        }) + self.display_path_spec() + "\n"@
    }

    /// The node's own header matches the query: the query occurs in the
    /// dotted name or in the displayed path (an empty query always does).
    pub open spec fn header_matches(self, q: Seq<char>) -> bool {
        crate::text::contains_sub(self.module@, q) || crate::text::contains_sub(
            self.display_path_spec(),
            q,
        )
    }

    /// What `find` renders for this node: its header, the matching
    /// definition blocks in the order variables, functions, classes, the
    /// children's blocks, and a closing marker for a package — or nothing
    /// at all when neither a definition in the subtree nor a node header
    /// matches.
    pub open spec fn find_spec_mm(
        self,
        q: Seq<char>,
        prefix: Seq<char>,
        find_vars: bool,
        find_functions: bool,
        find_classes: bool,
    ) -> Seq<Seq<char>>
        decreases self,
    {
        let subp = prefix + "|  "@;
        let var_blocks = if find_vars {
            attr_blocks(self.vars@, q, subp)
        } else {
            Seq::<Seq<char>>::empty()
        };
        let fn_blocks = if find_functions {
            method_blocks(self.functions@, q, subp)
        } else {
            Seq::<Seq<char>>::empty()
        };
        let cl_blocks = if find_classes || find_functions {
            class_blocks(self.classes@, q, subp)
        } else {
            Seq::<Seq<char>>::empty()
        };
        let child_blocks = if self.module_type is Directory {
            children_find(self.sub_modules@, q, subp, find_vars, find_functions, find_classes)
        } else {
            Seq::<Seq<char>>::empty()
        };
        if self.header_matches(q) || var_blocks.len() + fn_blocks.len() + cl_blocks.len()
            + child_blocks.len() > 0 {
            seq![self.header_spec(prefix)] + var_blocks + fn_blocks + cl_blocks + child_blocks
                + (if self.module_type is Directory {
                seq![prefix + "|  *\n"@]
            } else {
                Seq::<Seq<char>>::empty()
            })
        } else {
            Seq::<Seq<char>>::empty()
        }
    }
}

/// The concatenated `find` results of a package's children, in order.
pub open spec fn children_find(
    subs: Seq<ModuleManager>,
    q: Seq<char>,
    prefix: Seq<char>,
    find_vars: bool,
    find_functions: bool,
    find_classes: bool,
) -> Seq<Seq<char>>
    decreases subs,
{
    if subs.len() == 0 {
        Seq::<Seq<char>>::empty()
    } else {
        children_find(subs.drop_last(), q, prefix, find_vars, find_functions, find_classes)
            + subs.last().find_spec_mm(q, prefix, find_vars, find_functions, find_classes)
    }
}

impl ModuleManager {
    /// Renders the definitions of this node and its descendants that
    /// match the query, each kind gated by its flag; classes are rendered
    /// whenever functions are asked for, since methods live inside them.
    /// An empty result means nothing in the subtree matched.
    #[verifier::rlimit(60)]
    pub fn find(
        &self,
        query: &String,
        prefix: String,
        find_vars: bool,
        find_functions: bool,
        find_classes: bool,
    ) -> (r: Result<Vec<String>, ModuleError>)
        ensures
            r matches Ok(v) && v.deep_view() == self.find_spec_mm(
                query@,
                prefix@,
                find_vars,
                find_functions,
                find_classes,
            ),
        decreases *self,
    {
        let plen = self.path.as_str().unicode_len();
        let display_path = if self.module_type == ModuleType::Directory && plen >= 12 {
            proof {
                assert(self.path@.subrange(0, plen - 12) =~= self.path@.take(plen - 12));
            }
            self.path.as_str().substring_char(0, plen - 12).to_owned()
        } else {
            self.path.clone()
        };
        assert(display_path@ == self.display_path_spec());
        let header_hit = crate::text::contains_str(self.module.as_str(), query.as_str())
            || crate::text::contains_str(display_path.as_str(), query.as_str());
        let ghost hh = self.header_matches(query@);
        assert(header_hit == hh);
        let mut display = prefix.clone();
        display.append("|--");
        match self.module_type {
            ModuleType::File => {
                display.append("[f] ");
            },
            ModuleType::Directory => {
                display.append("[d] ");
            },
        }
        display.append(display_path.as_str());
        display.append("\n");
        assert(display@ =~= self.header_spec(prefix@));
        let mut sub_prefix = prefix.clone();
        sub_prefix.append("|  ");
        let ghost subp = prefix@ + "|  "@;
        assert(sub_prefix@ == subp);

        let mut found = header_hit;
        let mut displays: Vec<String> = Vec::new();
        displays.push(display);
        assert(displays.deep_view() =~= seq![self.header_spec(prefix@)]);

        let ghost var_blocks = if find_vars {
            attr_blocks(self.vars@, query@, subp)
        } else {
            Seq::<Seq<char>>::empty()
        };
        if find_vars {
            let mut i: usize = 0;
            while i < self.vars.len()
                invariant
                    i <= self.vars@.len(),
                    sub_prefix@ == subp,
                    found == (hh || attr_blocks(self.vars@.take(i as int), query@, subp).len()
                        > 0),
                    hh == self.header_matches(query@),
                    displays.deep_view() =~= seq![self.header_spec(prefix@)] + attr_blocks(
                        self.vars@.take(i as int),
                        query@,
                        subp,
                    ),
                decreases self.vars@.len() - i,
            {
                proof {
                    assert(self.vars@.take(i + 1).drop_last() =~= self.vars@.take(i as int));
                    assert(self.vars@.take(i + 1).last() == self.vars@[i as int]);
                }
                let ghost old_dv = displays.deep_view();
                let found_var = crate::python_def::PythonDef::find(
                    &self.vars[i],
                    query.as_str(),
                    None,
                    Some(&sub_prefix),
                );
                if found_var.as_str().unicode_len() > 0 {
                    found = true;
                    displays.push(found_var);
                    proof {
                        assert(displays.deep_view() =~= old_dv.push(
                            displays@.last()@,
                        ));
                    }
                }
                i += 1;
            }
            assert(self.vars@.take(self.vars@.len() as int) =~= self.vars@);
        }
        assert(displays.deep_view() =~= seq![self.header_spec(prefix@)] + var_blocks);
        assert(found == (hh || var_blocks.len() > 0));

        let ghost fn_blocks = if find_functions {
            method_blocks(self.functions@, query@, subp)
        } else {
            Seq::<Seq<char>>::empty()
        };
        if find_functions {
            let mut i: usize = 0;
            while i < self.functions.len()
                invariant
                    i <= self.functions@.len(),
                    sub_prefix@ == subp,
                    found == (hh || var_blocks.len() + method_blocks(
                        self.functions@.take(i as int),
                        query@,
                        subp,
                    ).len() > 0),
                    hh == self.header_matches(query@),
                    displays.deep_view() =~= seq![self.header_spec(prefix@)] + var_blocks
                        + method_blocks(self.functions@.take(i as int), query@, subp),
                decreases self.functions@.len() - i,
            {
                proof {
                    assert(self.functions@.take(i + 1).drop_last() =~= self.functions@.take(
                        i as int,
                    ));
                    assert(self.functions@.take(i + 1).last() == self.functions@[i as int]);
                }
                let ghost old_dv = displays.deep_view();
                let found_function = crate::python_def::PythonDef::find(
                    &self.functions[i],
                    query.as_str(),
                    None,
                    Some(&sub_prefix),
                );
                if found_function.as_str().unicode_len() > 0 {
                    found = true;
                    displays.push(found_function);
                    proof {
                        assert(displays.deep_view() =~= old_dv.push(displays@.last()@));
                    }
                }
                i += 1;
            }
            assert(self.functions@.take(self.functions@.len() as int) =~= self.functions@);
        }
        assert(displays.deep_view() =~= seq![self.header_spec(prefix@)] + var_blocks + fn_blocks);
        assert(found == (hh || var_blocks.len() + fn_blocks.len() > 0));

        let ghost cl_blocks = if find_classes || find_functions {
            class_blocks(self.classes@, query@, subp)
        } else {
            Seq::<Seq<char>>::empty()
        };
        if find_classes || find_functions {
            let mut i: usize = 0;
            while i < self.classes.len()
                invariant
                    i <= self.classes@.len(),
                    sub_prefix@ == subp,
                    found == (hh || var_blocks.len() + fn_blocks.len() + class_blocks(
                        self.classes@.take(i as int),
                        query@,
                        subp,
                    ).len() > 0),
                    hh == self.header_matches(query@),
                    displays.deep_view() =~= seq![self.header_spec(prefix@)] + var_blocks
                        + fn_blocks + class_blocks(self.classes@.take(i as int), query@, subp),
                decreases self.classes@.len() - i,
            {
                proof {
                    assert(self.classes@.take(i + 1).drop_last() =~= self.classes@.take(
                        i as int,
                    ));
                    assert(self.classes@.take(i + 1).last() == self.classes@[i as int]);
                }
                let ghost old_dv = displays.deep_view();
                let found_class = crate::python_def::PythonDef::find(
                    &self.classes[i],
                    query.as_str(),
                    None,
                    Some(&sub_prefix),
                );
                if found_class.as_str().unicode_len() > 0 {
                    found = true;
                    displays.push(found_class);
                    proof {
                        assert(displays.deep_view() =~= old_dv.push(displays@.last()@));
                    }
                }
                i += 1;
            }
            assert(self.classes@.take(self.classes@.len() as int) =~= self.classes@);
        }
        assert(displays.deep_view() =~= seq![self.header_spec(prefix@)] + var_blocks + fn_blocks
            + cl_blocks);
        assert(found == (hh || var_blocks.len() + fn_blocks.len() + cl_blocks.len() > 0));

        let ghost child_blocks = if self.module_type is Directory {
            children_find(self.sub_modules@, query@, subp, find_vars, find_functions, find_classes)
        } else {
            Seq::<Seq<char>>::empty()
        };
        if self.module_type == ModuleType::Directory {
            let mut i: usize = 0;
            while i < self.sub_modules.len()
                invariant
                    i <= self.sub_modules@.len(),
                    sub_prefix@ == subp,
                    found == (hh || var_blocks.len() + fn_blocks.len() + cl_blocks.len()
                        + children_find(
                        self.sub_modules@.take(i as int),
                        query@,
                        subp,
                        find_vars,
                        find_functions,
                        find_classes,
                    ).len() > 0),
                    hh == self.header_matches(query@),
                    displays.deep_view() =~= seq![self.header_spec(prefix@)] + var_blocks
                        + fn_blocks + cl_blocks + children_find(
                        self.sub_modules@.take(i as int),
                        query@,
                        subp,
                        find_vars,
                        find_functions,
                        find_classes,
                    ),
                decreases self.sub_modules@.len() - i,
            {
                proof {
                    assert(self.sub_modules@.take(i + 1).drop_last() =~= self.sub_modules@.take(
                        i as int,
                    ));
                    assert(self.sub_modules@.take(i + 1).last() == self.sub_modules@[i as int]);
                }
                let ghost old_dv = displays.deep_view();
                let sub_displays = match self.sub_modules[i].find(
                    query,
                    sub_prefix.clone(),
                    find_vars,
                    find_functions,
                    find_classes,
                ) {
                    Ok(v) => v,
                    Err(e) => {
                        return Err(e);
                    },
                };
                if sub_displays.len() > 0 {
                    found = true;
                }
                let ghost sub_dv = sub_displays.deep_view();
                let mut j: usize = 0;
                while j < sub_displays.len()
                    invariant
                        j <= sub_displays@.len(),
                        sub_dv == sub_displays.deep_view(),
                        displays.deep_view() =~= old_dv + sub_dv.take(j as int),
                    decreases sub_displays@.len() - j,
                {
                    let ghost old_dv2 = displays.deep_view();
                    displays.push(sub_displays[j].clone());
                    proof {
                        assert(displays.deep_view() =~= old_dv2.push(displays@.last()@));
                        assert(sub_dv.take(j + 1).drop_last() =~= sub_dv.take(j as int));
                        assert(old_dv2.push(sub_dv[j as int]) =~= old_dv + sub_dv.take(j + 1));
                    }
                    j += 1;
                }
                proof {
                    assert(sub_dv.take(sub_dv.len() as int) =~= sub_dv);
                }
                i += 1;
            }
            assert(self.sub_modules@.take(self.sub_modules@.len() as int) =~= self.sub_modules@);
            let mut tail = prefix.clone();
            tail.append("|  *\n");
            let ghost old_dv = displays.deep_view();
            displays.push(tail);
            proof {
                assert(displays.deep_view() =~= old_dv.push(displays@.last()@));
                assert(displays@.last()@ == prefix@ + "|  *\n"@);
            }
        }
        assert(displays.deep_view() =~= seq![self.header_spec(prefix@)] + var_blocks + fn_blocks
            + cl_blocks + child_blocks + (if self.module_type is Directory {
            seq![prefix@ + "|  *\n"@]
        } else {
            Seq::<Seq<char>>::empty()
        }));
        if found {
            Ok(displays)
        } else {
            let none_found: Vec<String> = Vec::new();
            assert(none_found.deep_view() =~= Seq::<Seq<char>>::empty());
            Ok(none_found)
        }
    }
}

/// The concatenated blocks of a file's functions, rendered with an empty
/// query, as the tree printer shows them.
pub open spec fn methods_print(fns: Seq<Method>, prefix: Seq<char>) -> Seq<char>
    decreases fns.len(),
{
    if fns.len() == 0 {
        Seq::<char>::empty()
    } else {
        methods_print(fns.drop_last(), prefix) + fns.last().find_spec(
            Seq::<char>::empty(),
            None,
            prefix,
        )
    }
}

/// The concatenated blocks of a file's classes, rendered with an empty
/// query, as the tree printer shows them.
pub open spec fn classes_print(cls: Seq<Class>, prefix: Seq<char>) -> Seq<char>
    decreases cls.len(),
{
    if cls.len() == 0 {
        Seq::<char>::empty()
    } else {
        classes_print(cls.drop_last(), prefix) + cls.last().find_spec(
            Seq::<char>::empty(),
            None,
            prefix,
        )
    }
}

impl ModuleManager {
    /// What the tree printer renders for this node: a line with its kind
    /// marker and last name component, optionally every definition's
    /// reconstructed code, then its children, and a closing marker for a
    /// package.
    pub open spec fn mprint_spec(self, prefix: Seq<char>, show_code: bool) -> Seq<char>
        decreases self,
    {
        let line = prefix + "|--"@ + (match self.module_type {
            ModuleType::File => "[f] "@,
            ModuleType::Directory => "[d] "@,
        }) + last_comp_with(Seq::<char>::empty(), self.module@) + "\n"@;
        let subp = prefix + "|  "@;
        let code = if show_code {
            methods_print(self.functions@, subp) + classes_print(self.classes@, subp)
        } else {
            Seq::<char>::empty()
        };
        line + code + (if self.module_type is Directory {
            children_print(self.sub_modules@, prefix, show_code) + prefix + "|  *\n"@
        } else {
            Seq::<char>::empty()
        })
    }
}

/// The concatenated rendering of a package's children.
pub open spec fn children_print(subs: Seq<ModuleManager>, prefix: Seq<char>, show_code: bool) -> Seq<
    char,
>
    decreases subs,
{
    if subs.len() == 0 {
        Seq::<char>::empty()
    } else {
        children_print(subs.drop_last(), prefix, show_code) + subs.last().mprint_spec(
            prefix + "|  "@,
            show_code,
        )
    }
}

/// The last dotted component of a name.
fn last_component(m: &str) -> (r: String)
    ensures
        r@ == last_comp_with(Seq::<char>::empty(), m@),
{
    let n = m.unicode_len();
    let mut comp = String::new();
    let mut i: usize = 0;
    assert(m@.skip(0) =~= m@);
    while i < n
        invariant
            n == m@.len(),
            i <= n,
            last_comp_with(Seq::<char>::empty(), m@) == last_comp_with(comp@, m@.skip(i as int)),
        decreases n - i,
    {
        proof {
            assert(m@.skip(i as int)[0] == m@[i as int]);
            assert(m@.skip(i as int).skip(1) =~= m@.skip(i + 1));
        }
        let c = m.get_char(i);
        if c == '.' {
            comp = String::new();
        } else {
            let ghost comp_old = comp@;
            push_char_from(&mut comp, m, i);
            assert(comp@ =~= comp_old.push(m@[i as int]));
        }
        i += 1;
    }
    comp
}

impl ModuleManager {
    /// Renders the module tree rooted at this node, optionally including
    /// the reconstructed code of every definition.
    pub fn mprint(&self, prefix: String, show_code: bool) -> (r: String)
        ensures
            r@ == self.mprint_spec(prefix@, show_code),
        decreases *self,
    {
        let mut display = prefix.clone();
        display.append("|--");
        match self.module_type {
            ModuleType::File => {
                display.append("[f] ");
            },
            ModuleType::Directory => {
                display.append("[d] ");
            },
        }
        let name = last_component(self.module.as_str());
        display.append(name.as_str());
        display.append("\n");
        let mut sub_prefix = prefix.clone();
        sub_prefix.append("|  ");
        let ghost subp = prefix@ + "|  "@;
        let ghost line = prefix@ + "|--"@ + (match self.module_type {
            ModuleType::File => "[f] "@,
            ModuleType::Directory => "[d] "@,
        }) + last_comp_with(Seq::<char>::empty(), self.module@) + "\n"@;
        assert(display@ =~= line);
        if show_code {
            let mut i: usize = 0;
            while i < self.functions.len()
                invariant
                    i <= self.functions@.len(),
                    sub_prefix@ == subp,
                    display@ == line + methods_print(self.functions@.take(i as int), subp),
                decreases self.functions@.len() - i,
            {
                proof {
                    assert(self.functions@.take(i + 1).drop_last() =~= self.functions@.take(
                        i as int,
                    ));
                    assert(self.functions@.take(i + 1).last() == self.functions@[i as int]);
                }
                let block = PythonDef::find(&self.functions[i], "", None, Some(&sub_prefix));
                proof {
                    reveal_strlit("");
                    assert(""@ =~= Seq::<char>::empty());
                }
                display.append(block.as_str());
                i += 1;
            }
            assert(self.functions@.take(self.functions@.len() as int) =~= self.functions@);
            let mut j: usize = 0;
            while j < self.classes.len()
                invariant
                    j <= self.classes@.len(),
                    sub_prefix@ == subp,
                    display@ == line + methods_print(self.functions@, subp) + classes_print(
                        self.classes@.take(j as int),
                        subp,
                    ),
                decreases self.classes@.len() - j,
            {
                proof {
                    assert(self.classes@.take(j + 1).drop_last() =~= self.classes@.take(
                        j as int,
                    ));
                    assert(self.classes@.take(j + 1).last() == self.classes@[j as int]);
                }
                let block = PythonDef::find(&self.classes[j], "", None, Some(&sub_prefix));
                proof {
                    reveal_strlit("");
                    assert(""@ =~= Seq::<char>::empty());
                }
                display.append(block.as_str());
                j += 1;
            }
            assert(self.classes@.take(self.classes@.len() as int) =~= self.classes@);
        }
        let ghost code = if show_code {
            methods_print(self.functions@, subp) + classes_print(self.classes@, subp)
        } else {
            Seq::<char>::empty()
        };
        assert(display@ =~= line + code);
        if self.module_type == ModuleType::Directory {
            let mut k: usize = 0;
            while k < self.sub_modules.len()
                invariant
                    k <= self.sub_modules@.len(),
                    sub_prefix@ == subp,
                    subp == prefix@ + "|  "@,
                    display@ == line + code + children_print(
                        self.sub_modules@.take(k as int),
                        prefix@,
                        show_code,
                    ),
                decreases self.sub_modules@.len() - k,
            {
                proof {
                    assert(self.sub_modules@.take(k + 1).drop_last() =~= self.sub_modules@.take(
                        k as int,
                    ));
                    assert(self.sub_modules@.take(k + 1).last() == self.sub_modules@[k as int]);
                }
                let block = self.sub_modules[k].mprint(sub_prefix.clone(), show_code);
                display.append(block.as_str());
                proof {
                    assert(display@ =~= line + code + children_print(
                        self.sub_modules@.take(k + 1),
                        prefix@,
                        show_code,
                    ));
                }
                k += 1;
            }
            assert(self.sub_modules@.take(self.sub_modules@.len() as int) =~= self.sub_modules@);
            display.append(prefix.as_str());
            display.append("|  *\n");
        }
        display
    }
}

/// Neither a definition name nor a node's own dotted name or displayed
/// path contains the query, in the node or any of its descendants.
pub open spec fn no_name_matches(node: ModuleManager, q: Seq<char>) -> bool
    decreases node, 1int,
{
    &&& !node.header_matches(q)
    &&& forall|i: int|
        0 <= i < node.vars@.len() ==> !crate::text::contains_sub(
            (#[trigger] node.vars@[i]).name@,
            q,
        )
    &&& forall|i: int|
        0 <= i < node.functions@.len() ==> !crate::text::contains_sub(
            (#[trigger] node.functions@[i]).name@,
            q,
        )
    &&& forall|i: int|
        0 <= i < node.classes@.len() ==> {
            let c = #[trigger] node.classes@[i];
            &&& !crate::text::contains_sub(c.name@, q)
            &&& forall|j: int|
                0 <= j < c.methods@.len() ==> !crate::text::contains_sub(
                    (#[trigger] c.methods@[j]).name@,
                    q,
                )
        }
    &&& subs_no_match(node.sub_modules@, q)
}

/// No definition name under any of the nodes contains the query.
pub open spec fn subs_no_match(subs: Seq<ModuleManager>, q: Seq<char>) -> bool
    decreases subs, 0int,
{
    forall|i: int| 0 <= i < subs.len() ==> no_name_matches(#[trigger] subs[i], q)
}

proof fn lemma_attr_blocks_no_match(vars: Seq<Attribute>, q: Seq<char>, prefix: Seq<char>)
    requires
        q.len() > 0,
        forall|i: int|
            0 <= i < vars.len() ==> !crate::text::contains_sub((#[trigger] vars[i]).name@, q),
    ensures
        attr_blocks(vars, q, prefix) == Seq::<Seq<char>>::empty(),
    decreases vars.len(),
{
    if vars.len() > 0 {
        assert forall|i: int|
            0 <= i < vars.drop_last().len() implies !crate::text::contains_sub(
            (#[trigger] vars.drop_last()[i]).name@,
            q,
        ) by {
            assert(vars.drop_last()[i] == vars[i]);
        }
        lemma_attr_blocks_no_match(vars.drop_last(), q, prefix);
        assert(vars.last() == vars[vars.len() - 1]);
        assert(attr_blocks(vars, q, prefix) =~= Seq::<Seq<char>>::empty());
    }
}

proof fn lemma_method_blocks_no_match(fns: Seq<Method>, q: Seq<char>, prefix: Seq<char>)
    requires
        q.len() > 0,
        forall|i: int|
            0 <= i < fns.len() ==> !crate::text::contains_sub((#[trigger] fns[i]).name@, q),
    ensures
        method_blocks(fns, q, prefix) == Seq::<Seq<char>>::empty(),
    decreases fns.len(),
{
    if fns.len() > 0 {
        assert forall|i: int|
            0 <= i < fns.drop_last().len() implies !crate::text::contains_sub(
            (#[trigger] fns.drop_last()[i]).name@,
            q,
        ) by {
            assert(fns.drop_last()[i] == fns[i]);
        }
        lemma_method_blocks_no_match(fns.drop_last(), q, prefix);
        assert(fns.last() == fns[fns.len() - 1]);
        assert(method_blocks(fns, q, prefix) =~= Seq::<Seq<char>>::empty());
    }
}

proof fn lemma_methods_find_no_match(ms: Seq<Method>, q: Seq<char>, prefix: Seq<char>)
    requires
        q.len() > 0,
        forall|i: int|
            0 <= i < ms.len() ==> !crate::text::contains_sub((#[trigger] ms[i]).name@, q),
    ensures
        crate::python_def::methods_find_spec(ms, q, prefix) == Seq::<char>::empty(),
    decreases ms.len(),
{
    if ms.len() > 0 {
        assert forall|i: int|
            0 <= i < ms.drop_last().len() implies !crate::text::contains_sub(
            (#[trigger] ms.drop_last()[i]).name@,
            q,
        ) by {
            assert(ms.drop_last()[i] == ms[i]);
        }
        lemma_methods_find_no_match(ms.drop_last(), q, prefix);
        assert(ms.last() == ms[ms.len() - 1]);
        assert(crate::python_def::methods_find_spec(ms, q, prefix) =~= Seq::<char>::empty());
    }
}

proof fn lemma_class_blocks_no_match(cls: Seq<Class>, q: Seq<char>, prefix: Seq<char>)
    requires
        q.len() > 0,
        forall|i: int|
            0 <= i < cls.len() ==> {
                let c = #[trigger] cls[i];
                &&& !crate::text::contains_sub(c.name@, q)
                &&& forall|j: int|
                    0 <= j < c.methods@.len() ==> !crate::text::contains_sub(
                        (#[trigger] c.methods@[j]).name@,
                        q,
                    )
            },
    ensures
        class_blocks(cls, q, prefix) == Seq::<Seq<char>>::empty(),
    decreases cls.len(),
{
    if cls.len() > 0 {
        assert forall|i: int|
            0 <= i < cls.drop_last().len() implies {
            let c = #[trigger] cls.drop_last()[i];
            &&& !crate::text::contains_sub(c.name@, q)
            &&& forall|j: int|
                0 <= j < c.methods@.len() ==> !crate::text::contains_sub(
                    (#[trigger] c.methods@[j]).name@,
                    q,
                )
        } by {
            assert(cls.drop_last()[i] == cls[i]);
        }
        lemma_class_blocks_no_match(cls.drop_last(), q, prefix);
        let c = cls.last();
        assert(c == cls[cls.len() - 1]);
        lemma_methods_find_no_match(c.methods@, q, prefix + "    "@);
        assert(class_blocks(cls, q, prefix) =~= Seq::<Seq<char>>::empty());
    }
}

/// A query that matches no definition name anywhere in the subtree
/// yields an empty result, and therefore no header line.
pub proof fn lemma_find_no_match_empty(
    node: ModuleManager,
    q: Seq<char>,
    prefix: Seq<char>,
    find_vars: bool,
    find_functions: bool,
    find_classes: bool,
)
    requires
        q.len() > 0,
        no_name_matches(node, q),
    ensures
        node.find_spec_mm(q, prefix, find_vars, find_functions, find_classes) == Seq::<
            Seq<char>,
        >::empty(),
    decreases node, 1int,
{
    let subp = prefix + "|  "@;
    lemma_attr_blocks_no_match(node.vars@, q, subp);
    lemma_method_blocks_no_match(node.functions@, q, subp);
    lemma_class_blocks_no_match(node.classes@, q, subp);
    lemma_children_find_no_match(
        node.sub_modules@,
        q,
        subp,
        find_vars,
        find_functions,
        find_classes,
    );
}

proof fn lemma_children_find_no_match(
    subs: Seq<ModuleManager>,
    q: Seq<char>,
    prefix: Seq<char>,
    find_vars: bool,
    find_functions: bool,
    find_classes: bool,
)
    requires
        q.len() > 0,
        subs_no_match(subs, q),
    ensures
        children_find(subs, q, prefix, find_vars, find_functions, find_classes) == Seq::<
            Seq<char>,
        >::empty(),
    decreases subs, 0int,
{
    if subs.len() > 0 {
        assert forall|i: int|
            0 <= i < subs.drop_last().len() implies no_name_matches(
            #[trigger] subs.drop_last()[i],
            q,
        ) by {
            assert(subs.drop_last()[i] == subs[i]);
        }
        lemma_children_find_no_match(
            subs.drop_last(),
            q,
            prefix,
            find_vars,
            find_functions,
            find_classes,
        );
        assert(subs.last() == subs[subs.len() - 1]);
        lemma_find_no_match_empty(subs.last(), q, prefix, find_vars, find_functions, find_classes);
        assert(children_find(subs, q, prefix, find_vars, find_functions, find_classes) =~= Seq::<
            Seq<char>,
        >::empty());
    }
}

proof fn lemma_concat_contains<A>(a: Seq<A>, b: Seq<A>, x: A)
    requires
        a.contains(x) || b.contains(x),
    ensures
        (a + b).contains(x),
{
    if a.contains(x) {
        let i = choose|i: int| 0 <= i < a.len() && a[i] == x;
        assert((a + b)[i] == x);
    } else {
        let i = choose|i: int| 0 <= i < b.len() && b[i] == x;
        assert((a + b)[a.len() + i] == x);
    }
}

proof fn lemma_attr_blocks_contains(vars: Seq<Attribute>, q: Seq<char>, prefix: Seq<char>, i: int)
    requires
        0 <= i < vars.len(),
        vars[i].find_spec(q, None, prefix).len() > 0,
    ensures
        attr_blocks(vars, q, prefix).contains(vars[i].find_spec(q, None, prefix)),
    decreases vars.len(),
{
    if i == vars.len() - 1 {
        let b = vars.last().find_spec(q, None, prefix);
        assert(attr_blocks(vars, q, prefix).last() == b);
        assert(attr_blocks(vars, q, prefix).contains(b));
    } else {
        lemma_attr_blocks_contains(vars.drop_last(), q, prefix, i);
        assert(vars.drop_last()[i] == vars[i]);
        lemma_concat_contains(
            attr_blocks(vars.drop_last(), q, prefix),
            (if vars.last().find_spec(q, None, prefix).len() > 0 {
                seq![vars.last().find_spec(q, None, prefix)]
            } else {
                Seq::<Seq<char>>::empty()
            }),
            vars[i].find_spec(q, None, prefix),
        );
    }
}

proof fn lemma_method_blocks_contains(fns: Seq<Method>, q: Seq<char>, prefix: Seq<char>, i: int)
    requires
        0 <= i < fns.len(),
        fns[i].find_spec(q, None, prefix).len() > 0,
    ensures
        method_blocks(fns, q, prefix).contains(fns[i].find_spec(q, None, prefix)),
    decreases fns.len(),
{
    if i == fns.len() - 1 {
        let b = fns.last().find_spec(q, None, prefix);
        assert(method_blocks(fns, q, prefix).last() == b);
        assert(method_blocks(fns, q, prefix).contains(b));
    } else {
        lemma_method_blocks_contains(fns.drop_last(), q, prefix, i);
        assert(fns.drop_last()[i] == fns[i]);
        lemma_concat_contains(
            method_blocks(fns.drop_last(), q, prefix),
            (if fns.last().find_spec(q, None, prefix).len() > 0 {
                seq![fns.last().find_spec(q, None, prefix)]
            } else {
                Seq::<Seq<char>>::empty()
            }),
            fns[i].find_spec(q, None, prefix),
        );
    }
}

proof fn lemma_class_blocks_contains(cls: Seq<Class>, q: Seq<char>, prefix: Seq<char>, i: int)
    requires
        0 <= i < cls.len(),
        cls[i].find_spec(q, None, prefix).len() > 0,
    ensures
        class_blocks(cls, q, prefix).contains(cls[i].find_spec(q, None, prefix)),
    decreases cls.len(),
{
    if i == cls.len() - 1 {
        let b = cls.last().find_spec(q, None, prefix);
        assert(class_blocks(cls, q, prefix).last() == b);
        assert(class_blocks(cls, q, prefix).contains(b));
    } else {
        lemma_class_blocks_contains(cls.drop_last(), q, prefix, i);
        assert(cls.drop_last()[i] == cls[i]);
        lemma_concat_contains(
            class_blocks(cls.drop_last(), q, prefix),
            (if cls.last().find_spec(q, None, prefix).len() > 0 {
                seq![cls.last().find_spec(q, None, prefix)]
            } else {
                Seq::<Seq<char>>::empty()
            }),
            cls[i].find_spec(q, None, prefix),
        );
    }
}

proof fn lemma_children_find_contains(
    subs: Seq<ModuleManager>,
    q: Seq<char>,
    prefix: Seq<char>,
    find_vars: bool,
    find_functions: bool,
    find_classes: bool,
    j: int,
    x: Seq<char>,
)
    requires
        0 <= j < subs.len(),
        subs[j].find_spec_mm(q, prefix, find_vars, find_functions, find_classes).contains(x),
    ensures
        children_find(subs, q, prefix, find_vars, find_functions, find_classes).contains(x),
    decreases subs.len(),
{
    if j == subs.len() - 1 {
        lemma_concat_contains(
            children_find(subs.drop_last(), q, prefix, find_vars, find_functions, find_classes),
            subs.last().find_spec_mm(q, prefix, find_vars, find_functions, find_classes),
            x,
        );
        assert(subs.last() == subs[j]);
    } else {
        assert(subs.drop_last()[j] == subs[j]);
        lemma_children_find_contains(
            subs.drop_last(),
            q,
            prefix,
            find_vars,
            find_functions,
            find_classes,
            j,
            x,
        );
        lemma_concat_contains(
            children_find(subs.drop_last(), q, prefix, find_vars, find_functions, find_classes),
            subs.last().find_spec_mm(q, prefix, find_vars, find_functions, find_classes),
            x,
        );
    }
}

/// With an empty query every definition of the node is returned: the
/// block of each variable, function and class stands in the result, and
/// everything a child's own result holds stands in the result too.
#[verifier::rlimit(80)]
#[verifier::spinoff_prover]
pub proof fn lemma_find_empty_query_complete(node: ModuleManager, prefix: Seq<char>)
    ensures
        forall|i: int|
            0 <= i < node.vars@.len() ==> node.find_spec_mm(
                Seq::<char>::empty(),
                prefix,
                true,
                true,
                true,
            ).contains(
                (#[trigger] node.vars@[i]).find_spec(Seq::<char>::empty(), None, prefix + "|  "@),
            ),
        forall|i: int|
            0 <= i < node.functions@.len() ==> node.find_spec_mm(
                Seq::<char>::empty(),
                prefix,
                true,
                true,
                true,
            ).contains(
                (#[trigger] node.functions@[i]).find_spec(
                    Seq::<char>::empty(),
                    None,
                    prefix + "|  "@,
                ),
            ),
        forall|i: int|
            0 <= i < node.classes@.len() ==> node.find_spec_mm(
                Seq::<char>::empty(),
                prefix,
                true,
                true,
                true,
            ).contains(
                (#[trigger] node.classes@[i]).find_spec(
                    Seq::<char>::empty(),
                    None,
                    prefix + "|  "@,
                ),
            ),
        forall|j: int, x: Seq<char>|
            0 <= j < node.sub_modules@.len() && node.module_type is Directory && #[trigger] node
                .sub_modules@[j].find_spec_mm(
                Seq::<char>::empty(),
                prefix + "|  "@,
                true,
                true,
                true,
            ).contains(x) ==> node.find_spec_mm(
                Seq::<char>::empty(),
                prefix,
                true,
                true,
                true,
            ).contains(x),
{
    let q = Seq::<char>::empty();
    let subp = prefix + "|  "@;
    let var_blocks = attr_blocks(node.vars@, q, subp);
    let fn_blocks = method_blocks(node.functions@, q, subp);
    let cl_blocks = class_blocks(node.classes@, q, subp);
    let child_blocks = if node.module_type is Directory {
        children_find(node.sub_modules@, q, subp, true, true, true)
    } else {
        Seq::<Seq<char>>::empty()
    };
    let r = node.find_spec_mm(q, prefix, true, true, true);
    assert forall|i: int|
        0 <= i < node.vars@.len() implies r.contains(
        (#[trigger] node.vars@[i]).find_spec(q, None, subp),
    ) by {
        let b = node.vars@[i].find_spec(q, None, subp);
        assert(crate::text::contains_sub(node.vars@[i].name@, q) || q.len() == 0);
        assert(b.len() > 0) by {
            crate::python_def::lemma_attr_find_nonempty(node.vars@[i], q, None, subp);
        }
        lemma_attr_blocks_contains(node.vars@, q, subp, i);
        lemma_concat_contains(seq![node.header_spec(prefix)], var_blocks, b);
        lemma_concat_contains(seq![node.header_spec(prefix)] + var_blocks, fn_blocks, b);
        lemma_concat_contains(
            seq![node.header_spec(prefix)] + var_blocks + fn_blocks,
            cl_blocks,
            b,
        );
        lemma_concat_contains(
            seq![node.header_spec(prefix)] + var_blocks + fn_blocks + cl_blocks,
            child_blocks,
            b,
        );
        lemma_concat_contains(
            seq![node.header_spec(prefix)] + var_blocks + fn_blocks + cl_blocks + child_blocks,
            (if node.module_type is Directory {
                seq![prefix + "|  *\n"@]
            } else {
                Seq::<Seq<char>>::empty()
            }),
            b,
        );
    }
    assert forall|i: int|
        0 <= i < node.functions@.len() implies r.contains(
        (#[trigger] node.functions@[i]).find_spec(q, None, subp),
    ) by {
        let b = node.functions@[i].find_spec(q, None, subp);
        assert(b.len() > 0) by {
            crate::python_def::lemma_method_find_nonempty(node.functions@[i], q, None, subp);
        }
        lemma_method_blocks_contains(node.functions@, q, subp, i);
        lemma_concat_contains(var_blocks, fn_blocks, b);
        lemma_concat_contains(seq![node.header_spec(prefix)], var_blocks + fn_blocks, b);
        assert(seq![node.header_spec(prefix)] + (var_blocks + fn_blocks) =~= seq![
            node.header_spec(prefix),
        ] + var_blocks + fn_blocks);
        lemma_concat_contains(
            seq![node.header_spec(prefix)] + var_blocks + fn_blocks,
            cl_blocks,
            b,
        );
        lemma_concat_contains(
            seq![node.header_spec(prefix)] + var_blocks + fn_blocks + cl_blocks,
            child_blocks,
            b,
        );
        lemma_concat_contains(
            seq![node.header_spec(prefix)] + var_blocks + fn_blocks + cl_blocks + child_blocks,
            (if node.module_type is Directory {
                seq![prefix + "|  *\n"@]
            } else {
                Seq::<Seq<char>>::empty()
            }),
            b,
        );
    }
    assert forall|i: int|
        0 <= i < node.classes@.len() implies r.contains(
        (#[trigger] node.classes@[i]).find_spec(q, None, subp),
    ) by {
        let b = node.classes@[i].find_spec(q, None, subp);
        assert(b.len() > 0) by {
            crate::python_def::lemma_class_find_empty_nonempty(node.classes@[i], q, None, subp);
        }
        lemma_class_blocks_contains(node.classes@, q, subp, i);
        lemma_concat_contains(fn_blocks, cl_blocks, b);
        lemma_concat_contains(var_blocks, fn_blocks + cl_blocks, b);
        lemma_concat_contains(seq![node.header_spec(prefix)], var_blocks + (fn_blocks + cl_blocks), b);
        assert(seq![node.header_spec(prefix)] + (var_blocks + (fn_blocks + cl_blocks)) =~= seq![
            node.header_spec(prefix),
        ] + var_blocks + fn_blocks + cl_blocks);
        lemma_concat_contains(
            seq![node.header_spec(prefix)] + var_blocks + fn_blocks + cl_blocks,
            child_blocks,
            b,
        );
        lemma_concat_contains(
            seq![node.header_spec(prefix)] + var_blocks + fn_blocks + cl_blocks + child_blocks,
            (if node.module_type is Directory {
                seq![prefix + "|  *\n"@]
            } else {
                Seq::<Seq<char>>::empty()
            }),
            b,
        );
    }
    assert forall|j: int, x: Seq<char>|
        0 <= j < node.sub_modules@.len() && node.module_type is Directory && #[trigger] node
            .sub_modules@[j].find_spec_mm(q, subp, true, true, true).contains(x)
        implies r.contains(x) by {
        lemma_children_find_contains(node.sub_modules@, q, subp, true, true, true, j, x);
        lemma_concat_contains(cl_blocks, child_blocks, x);
        lemma_concat_contains(fn_blocks, cl_blocks + child_blocks, x);
        lemma_concat_contains(var_blocks, fn_blocks + (cl_blocks + child_blocks), x);
        lemma_concat_contains(
            seq![node.header_spec(prefix)],
            var_blocks + (fn_blocks + (cl_blocks + child_blocks)),
            x,
        );
        assert(seq![node.header_spec(prefix)] + (var_blocks + (fn_blocks + (cl_blocks
            + child_blocks))) =~= seq![node.header_spec(prefix)] + var_blocks + fn_blocks
            + cl_blocks + child_blocks);
        lemma_concat_contains(
            seq![node.header_spec(prefix)] + var_blocks + fn_blocks + cl_blocks + child_blocks,
            (if node.module_type is Directory {
                seq![prefix + "|  *\n"@]
            } else {
                Seq::<Seq<char>>::empty()
            }),
            x,
        );
    }
}

/// How often a character occurs in a text.
pub open spec fn count_char(s: Seq<char>, c: char) -> int
    decreases s.len(),
{
    if s.len() == 0 {
        0int
    } else {
        count_char(s.drop_last(), c) + (if s.last() == c {
            1int
        } else {
            0int
        })
    }
}

/// Whether a file path is reported by the project walk: it must name a
/// source file, lie under the prefix directory when one is given, and lie
/// no deeper below the walk root than the depth bound allows.
pub open spec fn travel_matches(
    p: Seq<char>,
    prefix: Option<Seq<char>>,
    max_depth: Option<usize>,
) -> bool {
    &&& ".py"@.is_suffix_of(p)
    &&& (match prefix {
        Some(pre) => (pre + "/"@).is_prefix_of(p),
        None => true,
    })
    &&& (match max_depth {
        Some(d) => count_char(
            (match prefix {
                Some(pre) => p.skip(pre.len() + 1 as int),
                None => p,
            }),
            '/',
        ) + 1 <= d,
        None => true,
    })
}

/// The file paths the project walk reports, in file order.
pub open spec fn travel_spec(
    files: Seq<crate::fs_model::SourceFile>,
    prefix: Option<Seq<char>>,
    max_depth: Option<usize>,
) -> Seq<Seq<char>>
    decreases files.len(),
{
    if files.len() == 0 {
        Seq::<Seq<char>>::empty()
    } else {
        travel_spec(files.drop_last(), prefix, max_depth) + (if travel_matches(
            files.last().path@,
            prefix,
            max_depth,
        ) {
            seq![files.last().path@]
        } else {
            Seq::<Seq<char>>::empty()
        })
    }
}

pub fn count_char_str(s: &str, c: char) -> (r: usize)
    ensures
        r == count_char(s@, c),
{
    let n = s.unicode_len();
    let mut r: usize = 0;
    let mut i: usize = 0;
    while i < n
        invariant
            n == s@.len(),
            i <= n,
            r == count_char(s@.take(i as int), c),
            r <= i,
        decreases n - i,
    {
        proof {
            assert(s@.take(i + 1).drop_last() =~= s@.take(i as int));
            assert(s@.take(i + 1).last() == s@[i as int]);
        }
        if s.get_char(i) == c {
            r += 1;
        }
        i += 1;
    }
    assert(s@.take(n as int) =~= s@);
    r
}

impl ModuleManager {
    /// Walks the project tree and reports every source-file path under
    /// the given prefix directory, down to the given depth below the walk
    /// root, in file order.
    pub fn travel_root(
        prefix: Option<String>,
        max_dept: Option<usize>,
        fs: &FsTree,
    ) -> (r: Result<Vec<String>, ModuleError>)
        ensures
            r matches Ok(v) && v.deep_view() == travel_spec(
                fs.files@,
                (match prefix {
                    Some(ref p) => Some(p@),
                    None => None::<Seq<char>>,
                }),
                max_dept,
            ),
    {
        let ghost pre_view = (match prefix {
            Some(ref p) => Some(p@),
            None => None::<Seq<char>>,
        });
        let mut found: Vec<String> = Vec::new();
        let mut i: usize = 0;
        while i < fs.files.len()
            invariant
                i <= fs.files@.len(),
                pre_view == (match prefix {
                    Some(ref p) => Some(p@),
                    None => None::<Seq<char>>,
                }),
                found.deep_view() =~= travel_spec(fs.files@.take(i as int), pre_view, max_dept),
            decreases fs.files@.len() - i,
        {
            proof {
                assert(fs.files@.take(i + 1).drop_last() =~= fs.files@.take(i as int));
                assert(fs.files@.take(i + 1).last() == fs.files@[i as int]);
            }
            let p = &fs.files[i].path;
            let mut keep = crate::text::ends_with_str(p.as_str(), ".py");
            let pn = p.as_str().unicode_len();
            match &prefix {
                Some(pre) => {
                    let mut pslash = pre.clone();
                    pslash.append("/");
                    if !crate::text::starts_with_str(p.as_str(), pslash.as_str()) {
                        keep = false;
                    }
                },
                None => {},
            }
            if keep {
                match max_dept {
                    Some(d) => {
                        let rel = match &prefix {
                            Some(pre) => {
                                let pre_n = pre.as_str().unicode_len();
                                proof {
                                    reveal_strlit("/");
                                    assert((pre@ + "/"@).len() == pre@.len() + 1);
                                }
                                p.as_str().substring_char(pre_n + 1, pn)
                            },
                            None => p.as_str(),
                        };
                        proof {
                            match pre_view {
                                Some(pv) => {
                                    assert(rel@ =~= p@.skip(pv.len() + 1 as int));
                                },
                                None => {},
                            }
                        }
                        let depth = count_char_str(rel, '/');
                        if depth >= d {
                            keep = false;
                        }
                    },
                    None => {},
                }
            }
            let ghost old_dv = found.deep_view();
            if keep {
                found.push(p.clone());
                proof {
                    assert(found.deep_view() =~= old_dv.push(found@.last()@));
                }
            }
            proof {
                assert(keep == travel_matches(fs.files@[i as int].path@, pre_view, max_dept));
            }
            i += 1;
        }
        assert(fs.files@.take(fs.files@.len() as int) =~= fs.files@);
        Ok(found)
    }
}

/// Rewrites one file: replaces every distinct-token occurrence of
/// `old_name` by `new_name` when the file is a source file, writing it
/// back only when its text changed.
fn rewrite_one_file(fs: &mut FsTree, p: &str, old_name: &str, new_name: &str)
    requires
        old(fs).wf(),
        old(fs).has_file(p@),
    ensures
        final(fs).wf(),
        forall|pp: Seq<char>| #[trigger] final(fs).has_file(pp) == old(fs).has_file(pp),
        final(fs).dirs@ == old(fs).dirs@,
        final(fs).file_content(p@) == (if ".py"@.is_suffix_of(p@) {
            crate::text::replace_token_spec(old(fs).file_content(p@), old_name@, new_name@, true)
        } else {
            old(fs).file_content(p@)
        }),
        (!".py"@.is_suffix_of(p@) || crate::text::replace_token_spec(
            old(fs).file_content(p@),
            old_name@,
            new_name@,
            true,
        ) == old(fs).file_content(p@)) ==> final(fs).file_ast(p@) == old(fs).file_ast(p@),
        forall|pp: Seq<char>|
            pp != p@ && old(fs).has_file(pp) ==> #[trigger] final(fs).file_content(pp) == old(fs).file_content(pp) && final(fs).file_ast(pp) == old(fs).file_ast(pp),
{
    if crate::text::ends_with_str(p, ".py") {
        let contents = match fs.read_file(p) {
            Ok(c) => c,
            Err(e) => {
                proof {
                    assert(false);
                }
                return;
            },
        };
        let replaced = crate::text::replace_token_str(contents.as_str(), old_name, new_name);
        if !str_eq(replaced.as_str(), contents.as_str()) {
            fs.write_file(p, replaced);
        }
    }
}

impl ModuleManager {
    /// Rewrites every distinct-token occurrence of the dotted name `old_name`
    /// to `new_name` in every source file under the root, writing a file
    /// back only when its text changed.
    fn replace_in_root(old_name: &str, new_name: &str, fs: &mut FsTree) -> (r: Result<
        (),
        ModuleError,
    >)
        requires
            old(fs).wf(),
        ensures
            final(fs).wf(),
            r is Ok,
            forall|p: Seq<char>| #[trigger] final(fs).has_file(p) == old(fs).has_file(p),
            final(fs).dirs@ == old(fs).dirs@,
            forall|p: Seq<char>|
                old(fs).has_file(p) ==> #[trigger] final(fs).file_content(p) == (if ".py"@
                    .is_suffix_of(p) {
                    crate::text::replace_token_spec(
                        old(fs).file_content(p),
                        old_name@,
                        new_name@,
                        true,
                    )
                } else {
                    old(fs).file_content(p)
                }),
            forall|p: Seq<char>|
                old(fs).has_file(p) && (!".py"@.is_suffix_of(p)
                    || crate::text::replace_token_spec(
                    old(fs).file_content(p),
                    old_name@,
                    new_name@,
                    true,
                ) == old(fs).file_content(p)) ==> #[trigger] final(fs).file_ast(p) == old(fs).file_ast(p),
    {
        let mut paths: Vec<String> = Vec::new();
        let mut i: usize = 0;
        while i < fs.files.len()
            invariant
                i <= fs.files@.len(),
                paths@.len() == i,
                forall|k: int| 0 <= k < i ==> (#[trigger] paths@[k])@ == fs.files@[k].path@,
            decreases fs.files@.len() - i,
        {
            paths.push(fs.files[i].path.clone());
            i += 1;
        }
        let ghost orig = *fs;
        let n = paths.len();
        let mut k: usize = 0;
        while k < n
            invariant
                fs.wf(),
                orig.wf(),
                n == paths@.len(),
                n == orig.files@.len(),
                k <= n,
                forall|idx: int| 0 <= idx < n ==> (#[trigger] paths@[idx])@ == orig.files@[idx].path@,
                forall|p: Seq<char>| #[trigger] fs.has_file(p) == orig.has_file(p),
                fs.dirs@ == orig.dirs@,
                forall|idx: int|
                    0 <= idx < k ==> fs.file_content(((#[trigger] paths@[idx]))@) == (if ".py"@
                        .is_suffix_of((paths@[idx])@) {
                        crate::text::replace_token_spec(
                            orig.file_content((paths@[idx])@),
                            old_name@,
                            new_name@,
                            true,
                        )
                    } else {
                        orig.file_content((paths@[idx])@)
                    }),
                forall|idx: int|
                    0 <= idx < k && (!".py"@.is_suffix_of(((#[trigger] paths@[idx]))@)
                        || crate::text::replace_token_spec(
                        orig.file_content((paths@[idx])@),
                        old_name@,
                        new_name@,
                        true,
                    ) == orig.file_content((paths@[idx])@)) ==> fs.file_ast(
                        (paths@[idx])@,
                    ) == orig.file_ast((paths@[idx])@),
                forall|idx: int|
                    k <= idx < n ==> fs.file_content(((#[trigger] paths@[idx]))@)
                        == orig.file_content((paths@[idx])@),
                forall|idx: int|
                    k <= idx < n ==> fs.file_ast(((#[trigger] paths@[idx]))@) == orig.file_ast(
                        (paths@[idx])@,
                    ),
            decreases n - k,
        {
            let p = &paths[k];
            proof {
                crate::fs_model::lemma_seq_has_file_of_index(orig.files@, k as int);
                assert((paths@[k as int])@ == p@);
            }
            let ghost pre = *fs;
            rewrite_one_file(fs, p.as_str(), old_name, new_name);
            proof {
                assert forall|idx: int|
                    0 <= idx < n && idx != k implies #[trigger] fs.file_content((paths@[idx])@)
                    == pre.file_content((paths@[idx])@) by {
                    assert(orig.files@[idx].path@ != orig.files@[k as int].path@);
                    crate::fs_model::lemma_seq_has_file_of_index(orig.files@, idx);
                    assert(pre.has_file((paths@[idx])@));
                }
                assert forall|idx: int|
                    0 <= idx < n && idx != k implies #[trigger] fs.file_ast((paths@[idx])@)
                    == pre.file_ast((paths@[idx])@) by {
                    assert(orig.files@[idx].path@ != orig.files@[k as int].path@);
                    crate::fs_model::lemma_seq_has_file_of_index(orig.files@, idx);
                    assert(pre.has_file((paths@[idx])@));
                    assert(fs.file_content((paths@[idx])@) == pre.file_content((paths@[idx])@));
                }
                assert(pre.file_content(p@) == orig.file_content(p@));
                assert(pre.file_ast(p@) == orig.file_ast(p@));
            }
            k += 1;
        }
        proof {
            assert forall|p: Seq<char>| orig.has_file(p) implies #[trigger] fs.file_content(p)
                == (if ".py"@.is_suffix_of(p) {
                crate::text::replace_token_spec(
                    orig.file_content(p),
                    old_name@,
                    new_name@,
                    true,
                )
            } else {
                orig.file_content(p)
            }) by {
                crate::fs_model::lemma_file_index_of(orig.files@, p);
                let idx = crate::fs_model::file_index_of(orig.files@, p);
                assert((paths@[idx])@ == p);
            }
            assert forall|p: Seq<char>|
                orig.has_file(p) && (!".py"@.is_suffix_of(p) || crate::text::replace_token_spec(
                    orig.file_content(p),
                    old_name@,
                    new_name@,
                    true,
                ) == orig.file_content(p)) implies #[trigger] fs.file_ast(p) == orig.file_ast(
                p,
            ) by {
                crate::fs_model::lemma_file_index_of(orig.files@, p);
                let idx = crate::fs_model::file_index_of(orig.files@, p);
                assert((paths@[idx])@ == p);
            }
        }
        Ok(())
    }
}

} // verus!
