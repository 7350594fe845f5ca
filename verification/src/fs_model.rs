//! The project tree as an explicit value: the source files under the root,
//! each with its text and, when the collaborating parser has supplied one,
//! its syntax tree; and the directories that exist.
//!
//! Every operation of the library reads and writes this value; the caller
//! that owns the real disk loads the tree before an operation and applies
//! the changed value afterwards.

use vstd::prelude::*;
use vstd::string::*;

use crate::error::ModuleError;
use crate::py_ast::StmtNode;
use crate::py_ast::ast_ok;
use crate::text::starts_with_str;
use crate::text::str_eq;

verus! {

/// One source file: its path relative to the project root, its text, and
/// the statements the collaborating parser produced for that text — `None`
/// when the file has not been parsed or failed to parse, in which case it
/// is treated as having no symbols.
pub struct SourceFile {
    pub path: String,
    pub content: String,
    pub ast: Option<Vec<StmtNode>>,
}

impl SourceFile {
    /// The spans of a stored syntax tree lie within the stored text.
    pub open spec fn wf(&self) -> bool {
        match self.ast {
            Some(ref a) => ast_ok(a@, self.content@.len()),
            None => true,
        }
    }
}

/// The index of the first file with the given path, or -1.
pub open spec fn file_index_of(files: Seq<SourceFile>, path: Seq<char>) -> int
    decreases files.len(),
{
    if files.len() == 0 {
        -1
    } else if files[0].path@ == path {
        0
    } else {
        let r = file_index_of(files.drop_first(), path);
        if r < 0 {
            -1
        } else {
            r + 1
        }
    }
}

/// A file with the given path exists in `files`.
pub open spec fn seq_has_file(files: Seq<SourceFile>, path: Seq<char>) -> bool {
    file_index_of(files, path) >= 0
}

/// The index returned by `file_index_of` is in range and hits `path`, and
/// no earlier index does.
pub proof fn lemma_file_index_of(files: Seq<SourceFile>, path: Seq<char>)
    ensures
        seq_has_file(files, path) ==> {
            let i = file_index_of(files, path);
            &&& 0 <= i < files.len()
            &&& files[i].path@ == path
        },
        !seq_has_file(files, path) ==> forall|i: int|
            0 <= i < files.len() ==> (#[trigger] files[i]).path@ != path,
    decreases files.len(),
{
    if files.len() > 0 {
        lemma_file_index_of(files.drop_first(), path);
        if files[0].path@ != path {
            assert forall|i: int|
                1 <= i < files.len() implies (#[trigger] files[i]) == files.drop_first()[i - 1] by {}
        }
    }
}

/// The project tree.
pub struct FsTree {
    pub files: Vec<SourceFile>,
    pub dirs: Vec<String>,
}

impl FsTree {
    /// File paths are unique and every stored syntax tree fits its text.
    pub open spec fn wf(&self) -> bool {
        &&& forall|i: int, j: int|
            0 <= i < j < self.files@.len() ==> (#[trigger] self.files@[i]).path@ != (
            #[trigger] self.files@[j]).path@
        &&& forall|i: int| 0 <= i < self.files@.len() ==> (#[trigger] self.files@[i]).wf()
    }

    /// A file with this path exists.
    pub open spec fn has_file(&self, path: Seq<char>) -> bool {
        seq_has_file(self.files@, path)
    }

    /// A directory with this path exists.
    pub open spec fn has_dir(&self, path: Seq<char>) -> bool {
        exists|i: int| 0 <= i < self.dirs@.len() && (#[trigger] self.dirs@[i])@ == path
    }

    /// The text of the file with this path (meaningful when it exists).
    pub open spec fn file_content(&self, path: Seq<char>) -> Seq<char> {
        self.files@[file_index_of(self.files@, path)].content@
    }

    /// The stored statements of the file with this path (meaningful when
    /// it exists).
    pub open spec fn file_ast(&self, path: Seq<char>) -> Option<Vec<StmtNode>> {
        self.files@[file_index_of(self.files@, path)].ast
    }

    /// An empty project tree.
    pub fn new() -> (r: FsTree)
        ensures
            r.files@.len() == 0,
            r.dirs@.len() == 0,
            r.wf(),
    {
        FsTree { files: Vec::new(), dirs: Vec::new() }
    }

    /// The index of the file with this path, if any.
    fn find_file(&self, path: &str) -> (r: Option<usize>)
        ensures
            r matches Some(i) ==> 0 <= i < self.files@.len() && i == file_index_of(
                self.files@,
                path@,
            ),
            r is None ==> !self.has_file(path@),
    {
        let mut i: usize = 0;
        assert(self.files@.skip(0) =~= self.files@);
        while i < self.files.len()
            invariant
                i <= self.files@.len(),
                file_index_of(self.files@.skip(i as int), path@) >= 0 ==> file_index_of(
                    self.files@,
                    path@,
                ) == i + file_index_of(self.files@.skip(i as int), path@),
                file_index_of(self.files@, path@) >= 0 ==> file_index_of(
                    self.files@.skip(i as int),
                    path@,
                ) >= 0,
                forall|k: int| 0 <= k < i ==> (#[trigger] self.files@[k]).path@ != path@,
            decreases self.files@.len() - i,
        {
            proof {
                assert(self.files@.skip(i as int)[0] == self.files@[i as int]);
                assert(self.files@.skip(i as int).drop_first() =~= self.files@.skip(i + 1));
            }
            if str_eq(self.files[i].path.as_str(), path) {
                return Some(i);
            }
            i += 1;
        }
        proof {
            assert(self.files@.skip(i as int).len() == 0);
        }
        None
    }

    /// Whether a file with this path exists.
    pub fn file_exists(&self, path: &str) -> (b: bool)
        ensures
            b == self.has_file(path@),
    {
        match self.find_file(path) {
            Some(_) => true,
            None => false,
        }
    }

    /// Whether a directory with this path exists.
    pub fn dir_exists(&self, path: &str) -> (b: bool)
        ensures
            b == self.has_dir(path@),
    {
        let mut i: usize = 0;
        while i < self.dirs.len()
            invariant
                i <= self.dirs@.len(),
                forall|k: int| 0 <= k < i ==> (#[trigger] self.dirs@[k])@ != path@,
            decreases self.dirs@.len() - i,
        {
            if str_eq(self.dirs[i].as_str(), path) {
                return true;
            }
            i += 1;
        }
        false
    }

    /// Reads the text of a file; fails when no file has this path.
    pub fn read_file(&self, path: &str) -> (r: Result<String, ModuleError>)
        ensures
            self.has_file(path@) ==> (r matches Ok(c) && c@ == self.file_content(path@)),
            !self.has_file(path@) ==> (r matches Err(e) && e == ModuleError::IoFailure),
    {
        match self.find_file(path) {
            Some(i) => Ok(self.files[i].content.clone()),
            None => Err(ModuleError::IoFailure),
        }
    }

    /// The stored statements of a file: its parsed tree when one is held,
    /// or nothing, which callers treat as a file without symbols.
    pub fn ast_of(&self, path: &str) -> (r: Option<&Vec<StmtNode>>)
        requires
            self.wf(),
        ensures
            (match r {
                Some(a) => self.has_file(path@) && self.file_ast(path@) == Some(*a) && ast_ok(
                    a@,
                    self.file_content(path@).len(),
                ),
                None => !self.has_file(path@) || self.file_ast(path@) is None,
            }),
    {
        proof {
            lemma_file_index_of(self.files@, path@);
        }
        match self.find_file(path) {
            Some(i) => {
                match &self.files[i].ast {
                    Some(a) => Some(a),
                    None => None,
                }
            },
            None => None,
        }
    }

    /// Creates an empty, unparsed file at this path if none exists;
    /// leaves the tree unchanged otherwise.
    pub fn create_file(&mut self, path: &str)
        requires
            old(self).wf(),
        ensures
            final(self).wf(),
            old(self).has_file(path@) ==> *final(self) == *old(self),
            !old(self).has_file(path@) ==> {
                &&& final(self).files@ == old(self).files@.push(final(self).files@.last())
                &&& final(self).files@.last().path@ == path@
                &&& final(self).files@.last().content@ =~= Seq::<char>::empty()
                &&& final(self).files@.last().ast is None
                &&& final(self).dirs@ == old(self).dirs@
            },
            forall|p: Seq<char>|
                #[trigger] final(self).has_file(p) <==> (old(self).has_file(p) || p == path@),
            forall|p: Seq<char>|
                old(self).has_file(p) ==> #[trigger] final(self).file_content(p) == old(self).file_content(p) && final(self).file_ast(p) == old(self).file_ast(p),
            final(self).dirs@ == old(self).dirs@,
    {
        proof {
            lemma_file_index_of(self.files@, path@);
        }
        if !self.file_exists(path) {
            let ghost old_files = self.files@;
            let f = SourceFile { path: path.to_owned(), content: String::new(), ast: None };
            self.files.push(f);
            proof {
                let pushed = self.files@.last();
                lemma_file_index_push(old_files, pushed, path@);
                assert forall|p: Seq<char>| #[trigger]
                    self.has_file(p) <==> (old(self).has_file(p) || p == path@) by {
                    lemma_file_index_push(old_files, pushed, p);
                    lemma_file_index_of(old_files, p);
                }
                assert forall|p: Seq<char>| old(self).has_file(p) implies #[trigger] self
                    .file_content(p) == old(self).file_content(p) && self.file_ast(p) == old(self).file_ast(p) by {
                    lemma_file_index_push(old_files, pushed, p);
                    lemma_file_index_of(old_files, p);
                }
                lemma_file_index_of(old_files, path@);
            }
        }
    }

    /// Adds a directory entry at this path if none exists.
    pub fn create_dir(&mut self, path: &str)
        requires
            old(self).wf(),
        ensures
            final(self).wf(),
            final(self).files@ == old(self).files@,
            forall|p: Seq<char>|
                #[trigger] final(self).has_dir(p) <==> (old(self).has_dir(p) || p == path@),
            old(self).has_dir(path@) ==> *final(self) == *old(self),
    {
        if !self.dir_exists(path) {
            self.dirs.push(path.to_owned());
            assert forall|p: Seq<char>| #[trigger]
                self.has_dir(p) <==> (old(self).has_dir(p) || p == path@) by {
                if self.has_dir(p) {
                    let i = choose|i: int|
                        0 <= i < self.dirs@.len() && (#[trigger] self.dirs@[i])@ == p;
                    if i < self.dirs@.len() - 1 {
                        assert(old(self).dirs@[i]@ == p);
                    }
                }
                if old(self).has_dir(p) {
                    let i = choose|i: int|
                        0 <= i < old(self).dirs@.len() && (#[trigger] old(self).dirs@[i])@ == p;
                    assert(self.dirs@[i]@ == p);
                }
                if p == path@ {
                    assert(self.dirs@.last()@ == p);
                }
            }
        }
    }
}

impl FsTree {
    /// Writes `content` to the file at `path`, creating it if absent; the
    /// stored syntax tree of that file, if any, is discarded as stale.
    pub fn write_file(&mut self, path: &str, content: String)
        requires
            old(self).wf(),
        ensures
            final(self).wf(),
            forall|p: Seq<char>|
                #[trigger] final(self).has_file(p) <==> (old(self).has_file(p) || p == path@),
            final(self).has_file(path@),
            final(self).file_content(path@) == content@,
            final(self).file_ast(path@) is None,
            forall|p: Seq<char>|
                p != path@ && old(self).has_file(p) ==> #[trigger] final(self).file_content(p)
                    == old(self).file_content(p) && final(self).file_ast(p) == old(self).file_ast(p),
            final(self).dirs@ == old(self).dirs@,
    {
        proof {
            lemma_file_index_of(self.files@, path@);
        }
        match self.find_file(path) {
            Some(i) => {
                let ghost old_files = self.files@;
                let old_f = self.files.remove(i);
                let f = SourceFile { path: old_f.path, content, ast: None };
                self.files.insert(i, f);
                proof {
                    assert(self.files@ =~= old_files.update(i as int, self.files@[i as int]));
                    let nf = self.files@[i as int];
                    assert forall|p: Seq<char>| #[trigger]
                        file_index_of(self.files@, p) == file_index_of(old_files, p) by {
                        lemma_file_index_update(old_files, i as int, nf, p);
                    }
                    lemma_file_index_of(old_files, path@);
                    assert forall|p: Seq<char>|
                        p != path@ && seq_has_file(old_files, p) implies #[trigger] self.files@[
                        file_index_of(self.files@, p)] == old_files[file_index_of(
                        old_files,
                        p,
                    )] by {
                        lemma_file_index_update(old_files, i as int, nf, p);
                        lemma_file_index_of(old_files, p);
                    }
                }
            },
            None => {
                let ghost old_files = self.files@;
                let f = SourceFile { path: path.to_owned(), content, ast: None };
                self.files.push(f);
                proof {
                    let pushed = self.files@.last();
                    assert forall|p: Seq<char>| #[trigger]
                        self.has_file(p) <==> (old(self).has_file(p) || p == path@) by {
                        lemma_file_index_push(old_files, pushed, p);
                        lemma_file_index_of(old_files, p);
                    }
                    assert forall|p: Seq<char>|
                        p != path@ && old(self).has_file(p) implies #[trigger] self.file_content(
                        p,
                    ) == old(self).file_content(p) && self.file_ast(p) == old(self).file_ast(
                        p,
                    ) by {
                        lemma_file_index_push(old_files, pushed, p);
                        lemma_file_index_of(old_files, p);
                    }
                    lemma_file_index_push(old_files, pushed, path@);
                }
            },
        }
    }

    /// Stores the parsed statements for the file at `path`, after checking
    /// at run time that every span fits the stored text; a tree that does
    /// not fit is discarded, leaving the file without symbols. A path that
    /// names no file leaves the tree unchanged.
    pub fn set_ast(&mut self, path: &str, ast: Vec<StmtNode>)
        requires
            old(self).wf(),
        ensures
            final(self).wf(),
            forall|p: Seq<char>|
                #[trigger] final(self).has_file(p) == old(self).has_file(p),
            forall|p: Seq<char>|
                old(self).has_file(p) ==> #[trigger] final(self).file_content(p) == old(self).file_content(p),
            forall|p: Seq<char>|
                p != path@ && old(self).has_file(p) ==> #[trigger] final(self).file_ast(p) == old(self).file_ast(p),
            old(self).has_file(path@) ==> final(self).file_ast(path@) == (if ast_ok(
                ast@,
                old(self).file_content(path@).len(),
            ) {
                Some(ast)
            } else {
                None::<Vec<StmtNode>>
            }),
            !old(self).has_file(path@) ==> *final(self) == *old(self),
            final(self).dirs@ == old(self).dirs@,
    {
        proof {
            lemma_file_index_of(self.files@, path@);
        }
        match self.find_file(path) {
            Some(i) => {
                let ghost old_files = self.files@;
                let old_f = self.files.remove(i);
                let n = old_f.content.as_str().unicode_len();
                let ok = crate::py_ast::check_ast(&ast, n);
                let f = SourceFile {
                    path: old_f.path,
                    content: old_f.content,
                    ast: if ok {
                        Some(ast)
                    } else {
                        None
                    },
                };
                self.files.insert(i, f);
                proof {
                    assert(self.files@ =~= old_files.update(i as int, self.files@[i as int]));
                    let nf = self.files@[i as int];
                    assert forall|p: Seq<char>| #[trigger]
                        file_index_of(self.files@, p) == file_index_of(old_files, p) by {
                        lemma_file_index_update(old_files, i as int, nf, p);
                    }
                    lemma_file_index_of(old_files, path@);
                    assert forall|p: Seq<char>|
                        p != path@ && seq_has_file(old_files, p) implies #[trigger] self.files@[
                        file_index_of(self.files@, p)] == old_files[file_index_of(
                        old_files,
                        p,
                    )] by {
                        lemma_file_index_update(old_files, i as int, nf, p);
                        lemma_file_index_of(old_files, p);
                    }
                }
            },
            None => {},
        }
    }

    /// Renames the file at `from` to `to`, overwriting any file already at
    /// `to`; fails, leaving the tree unchanged, when `from` names no file.
    pub fn rename_file(&mut self, from: &str, to: &str) -> (r: Result<(), ModuleError>)
        requires
            old(self).wf(),
        ensures
            final(self).wf(),
            !old(self).has_file(from@) ==> (r matches Err(e) && e == ModuleError::IoFailure
                && *final(self) == *old(self)),
            old(self).has_file(from@) ==> r is Ok,
            old(self).has_file(from@) ==> forall|p: Seq<char>|
                #[trigger] final(self).has_file(p) <==> ((old(self).has_file(p) && p != from@)
                    || p == to@),
            old(self).has_file(from@)
                ==> final(self).file_content(to@) == old(self).file_content(from@)
                && final(self).file_ast(to@) == old(self).file_ast(from@),
            old(self).has_file(from@) ==> forall|p: Seq<char>|
                p != from@ && p != to@ && old(self).has_file(p)
                    ==> (#[trigger] final(self).file_content(p)) == old(self).file_content(p)
                    && final(self).file_ast(p) == old(self).file_ast(p),
            old(self).has_file(from@) ==> final(self).dirs@ == old(self).dirs@,
    {
        proof {
            lemma_file_index_of(self.files@, from@);
        }
        let idx = match self.find_file(from) {
            Some(i) => i,
            None => {
                return Err(ModuleError::IoFailure);
            },
        };
        let ghost s0 = self.files@;
        let mut f = self.files.remove(idx);
        let ghost s1 = self.files@;
        proof {
            assert forall|k: int|
                0 <= k < s0.len() && k != idx implies (#[trigger] s0[k]).path@ != s0[
                idx as int].path@ by {}
            lemma_remove_elements(s0, idx as int);
            assert forall|a: int, b: int|
                0 <= a < b < s1.len() implies (#[trigger] s1[a]).path@ != (
            #[trigger] s1[b]).path@ by {}
            assert forall|k: int| 0 <= k < s1.len() implies (#[trigger] s1[k]).wf() by {}
            assert forall|p: Seq<char>| #[trigger] seq_has_file(s1, p) implies seq_has_file(
                s0,
                p,
            ) && s1[file_index_of(s1, p)] == s0[file_index_of(s0, p)] by {
                lemma_file_index_remove(s0, idx as int, p);
            }
            assert forall|p: Seq<char>|
                p != from@ && #[trigger] seq_has_file(s0, p) implies seq_has_file(s1, p) by {
                lemma_file_index_remove(s0, idx as int, p);
            }
            assert(!seq_has_file(s1, from@)) by {
                lemma_file_index_remove(s0, idx as int, from@);
            }
        }
        f.path = to.to_owned();
        match self.find_file(to) {
            Some(j) => {
                let ghost s1b = self.files@;
                let _shadowed = self.files.remove(j);
                proof {
                    let s2 = self.files@;
                    lemma_file_index_of(s1b, to@);
                    assert forall|k: int|
                        0 <= k < s1b.len() && k != j implies (#[trigger] s1b[k]).path@ != s1b[
                        j as int].path@ by {}
                    lemma_remove_elements(s1b, j as int);
                    assert forall|a: int, b: int|
                        0 <= a < b < s2.len() implies (#[trigger] s2[a]).path@ != (
                    #[trigger] s2[b]).path@ by {}
                    assert forall|k: int| 0 <= k < s2.len() implies (#[trigger] s2[k]).wf() by {}
                    assert forall|p: Seq<char>| #[trigger] seq_has_file(s2, p) implies
                        seq_has_file(s1b, p) && s2[file_index_of(s2, p)] == s1b[file_index_of(
                        s1b,
                        p,
                    )] by {
                        lemma_file_index_remove(s1b, j as int, p);
                    }
                    assert forall|p: Seq<char>|
                        p != to@ && #[trigger] seq_has_file(s1b, p) implies seq_has_file(
                        s2,
                        p,
                    ) by {
                        lemma_file_index_remove(s1b, j as int, p);
                    }
                    assert(!seq_has_file(s2, to@)) by {
                        lemma_file_index_remove(s1b, j as int, to@);
                    }
                }
            },
            None => {},
        }
        let ghost s2 = self.files@;
        self.files.push(f);
        proof {
            let pushed = self.files@.last();
            assert(pushed.path@ == to@);
            lemma_file_index_of(s2, to@);
            assert(!seq_has_file(s2, to@));
            assert forall|a: int, b: int|
                0 <= a < b < self.files@.len() implies (#[trigger] self.files@[a]).path@ != (
            #[trigger] self.files@[b]).path@ by {
                if b == self.files@.len() - 1 {
                    assert(self.files@[a] == s2[a]);
                }
            }
            assert forall|k: int|
                0 <= k < self.files@.len() implies (#[trigger] self.files@[k]).wf() by {
                if k < self.files@.len() - 1 {
                    assert(self.files@[k] == s2[k]);
                }
            }
            assert forall|p: Seq<char>| #[trigger]
                seq_has_file(self.files@, p) <==> (seq_has_file(s2, p) || p == to@) by {
                lemma_file_index_push(s2, pushed, p);
                lemma_file_index_of(s2, p);
            }
            assert forall|p: Seq<char>|
                p != to@ && #[trigger] seq_has_file(s2, p) implies self.files@[file_index_of(
                self.files@,
                p,
            )] == s2[file_index_of(s2, p)] by {
                lemma_file_index_push(s2, pushed, p);
                lemma_file_index_of(s2, p);
            }
            lemma_file_index_push(s2, pushed, to@);
            lemma_file_index_of(self.files@, to@);
            lemma_file_index_of(s0, from@);
        }
        Ok(())
    }
}

/// Looking a path up is unchanged when one file's fields change under the
/// same path.
pub proof fn lemma_file_index_update(files: Seq<SourceFile>, i: int, f: SourceFile, p: Seq<char>)
    requires
        0 <= i < files.len(),
        f.path@ == files[i].path@,
    ensures
        file_index_of(files.update(i, f), p) == file_index_of(files, p),
    decreases files.len(),
{
    if i == 0 {
        assert(files.update(0, f)[0] == f);
        if files[0].path@ != p {
            assert(files.update(0, f).drop_first() =~= files.drop_first());
        }
    } else {
        lemma_file_index_update(files.drop_first(), i - 1, f, p);
        assert(files.update(i, f)[0] == files[0]);
        assert(files.update(i, f).drop_first() =~= files.drop_first().update(i - 1, f));
    }
}

/// The elements of `files.remove(i)`, in terms of `files`.
pub proof fn lemma_remove_elements(files: Seq<SourceFile>, i: int)
    requires
        0 <= i < files.len(),
    ensures
        files.remove(i).len() == files.len() - 1,
        forall|k: int|
            0 <= k < files.remove(i).len() ==> #[trigger] files.remove(i)[k] == (if k < i {
                files[k]
            } else {
                files[k + 1]
            }),
{
    assert forall|k: int|
        0 <= k < files.remove(i).len() implies #[trigger] files.remove(i)[k] == (if k < i {
        files[k]
    } else {
        files[k + 1]
    }) by {
        assert(files.remove(i) == files.subrange(0, i) + files.subrange(
            i + 1,
            files.len() as int,
        ));
    }
}

/// Removing the only file with a path makes that path unfindable and
/// leaves every other lookup at the same file.
pub proof fn lemma_file_index_remove(files: Seq<SourceFile>, i: int, p: Seq<char>)
    requires
        0 <= i < files.len(),
        forall|k: int|
            0 <= k < files.len() && k != i ==> (#[trigger] files[k]).path@ != files[i].path@,
    ensures
        p == files[i].path@ ==> !seq_has_file(files.remove(i), p),
        p != files[i].path@ ==> {
            let r = files.remove(i);
            &&& seq_has_file(r, p) == seq_has_file(files, p)
            &&& seq_has_file(files, p) ==> r[file_index_of(r, p)] == files[file_index_of(
                files,
                p,
            )]
        },
    decreases files.len(),
{
    let r = files.remove(i);
    lemma_remove_elements(files, i);
    if p == files[i].path@ {
        lemma_file_index_of(r, p);
        if seq_has_file(r, p) {
            let k = file_index_of(r, p);
            assert(r[k].path@ == p);
            if k < i {
                assert(files[k].path@ == p);
            } else {
                assert(files[k + 1].path@ == p);
            }
        }
    } else {
        if i == 0 {
            assert(r =~= files.drop_first());
            lemma_file_index_of(files.drop_first(), p);
            if seq_has_file(files, p) {
                lemma_file_index_of(files, p);
                let k = file_index_of(files, p);
                assert(k >= 1);
                assert(files.drop_first()[k - 1] == files[k]);
            }
        } else {
            assert forall|k: int|
                0 <= k < files.drop_first().len() && k != i - 1 implies (#[trigger] files
                .drop_first()[k]).path@ != files.drop_first()[i - 1].path@ by {
                assert(files.drop_first()[k] == files[k + 1]);
                assert(files.drop_first()[i - 1] == files[i]);
            }
            lemma_file_index_remove(files.drop_first(), i - 1, p);
            assert(r[0] == files[0]);
            assert(r.drop_first() =~= files.drop_first().remove(i - 1));
            if p != files[0].path@ && seq_has_file(files, p) {
                lemma_file_index_of(files, p);
                lemma_file_index_of(files.drop_first(), p);
                lemma_file_index_of(r, p);
                let k = file_index_of(files, p);
                assert(files[k] == files.drop_first()[k - 1]);
                let k2 = file_index_of(r, p);
                if k2 >= 1 {
                    assert(r[k2] == r.drop_first()[k2 - 1]);
                }
            }
        }
    }
}

/// The path `p` lies inside the directory `d`.
pub open spec fn under_dir(p: Seq<char>, d: Seq<char>) -> bool {
    (d + "/"@).is_prefix_of(p)
}

/// Where a path ends up when the contents of `from` move into `to`:
/// paths inside `from` are re-rooted, all others stay.
pub open spec fn repath(p: Seq<char>, from: Seq<char>, to: Seq<char>) -> Seq<char> {
    if under_dir(p, from) {
        to + p.skip(from.len() as int)
    } else {
        p
    }
}

/// Some file inside `from` lands on `p` when `from`'s contents move
/// into `to`.
pub open spec fn is_move_target(fs: FsTree, p: Seq<char>, from: Seq<char>, to: Seq<char>) -> bool {
    exists|q: Seq<char>| #[trigger] fs.has_file(q) && under_dir(q, from) && p == repath(q, from, to)
}

/// What a path inside a directory is made of.
pub proof fn lemma_under_dir_parts(q: Seq<char>, from: Seq<char>)
    requires
        under_dir(q, from),
    ensures
        q.len() > from.len(),
        q.take(from.len() as int) == from,
        q[from.len() as int] == '/',
        q == from + q.skip(from.len() as int),
        q.skip(from.len() as int)[0] == '/',
{
    reveal_strlit("/");
    assert((from + "/"@) == q.subrange(0, from.len() + 1 as int));
    assert(q.take(from.len() as int) =~= from) by {
        assert forall|i: int| 0 <= i < from.len() implies q.take(from.len() as int)[i]
            == from[i] by {
            assert(q.subrange(0, from.len() + 1 as int)[i] == (from + "/"@)[i]);
        }
    }
    assert(q[from.len() as int] == q.subrange(0, from.len() + 1 as int)[from.len() as int]);
    assert(q =~= from + q.skip(from.len() as int));
}

/// Re-rooting is injective on the paths inside the source directory.
pub proof fn lemma_repath_injective(q1: Seq<char>, q2: Seq<char>, from: Seq<char>, to: Seq<char>)
    requires
        under_dir(q1, from),
        under_dir(q2, from),
        repath(q1, from, to) == repath(q2, from, to),
    ensures
        q1 == q2,
{
    reveal_strlit("/");
    lemma_under_dir_parts(q1, from);
    lemma_under_dir_parts(q2, from);
    let t1 = to + q1.skip(from.len() as int);
    let t2 = to + q2.skip(from.len() as int);
    assert(t1 == t2);
    assert(t1.len() == t2.len());
    assert(q1.skip(from.len() as int).len() == q2.skip(from.len() as int).len());
    assert(q1.skip(from.len() as int) =~= q2.skip(from.len() as int)) by {
        assert forall|i: int| 0 <= i < q1.skip(from.len() as int).len() implies q1.skip(
            from.len() as int,
        )[i] == q2.skip(from.len() as int)[i] by {
            assert(t1[to.len() + i] == q1.skip(from.len() as int)[i]);
            assert(t2[to.len() + i] == q2.skip(from.len() as int)[i]);
        }
    }
    assert(q1 =~= q2);
}

/// When the source and destination directories are unrelated, no
/// re-rooted path lands back inside the source.
pub proof fn lemma_target_not_under(q: Seq<char>, from: Seq<char>, to: Seq<char>)
    requires
        under_dir(q, from),
        from != to,
        !under_dir(to, from),
        !under_dir(from, to),
    ensures
        !under_dir(repath(q, from, to), from),
{
    reveal_strlit("/");
    lemma_under_dir_parts(q, from);
    let rest = q.skip(from.len() as int);
    let t = to + rest;
    if under_dir(t, from) {
        assert((from + "/"@) == t.subrange(0, from.len() + 1 as int));
        if from.len() < to.len() {
            assert((from + "/"@).is_prefix_of(to)) by {
                assert((from + "/"@) =~= to.subrange(0, from.len() + 1 as int)) by {
                    assert forall|i: int| 0 <= i < from.len() + 1 implies (from + "/"@)[i]
                        == to[i] by {
                        assert(t[i] == to[i]);
                        assert(t.subrange(0, from.len() + 1 as int)[i] == t[i]);
                    }
                }
            }
        } else if from.len() == to.len() {
            assert(from =~= to) by {
                assert forall|i: int| 0 <= i < from.len() implies from[i] == to[i] by {
                    assert(t[i] == to[i]);
                    assert(t.subrange(0, from.len() + 1 as int)[i] == t[i]);
                }
            }
        } else {
            assert((to + "/"@).is_prefix_of(from)) by {
                assert((to + "/"@) =~= from.subrange(0, to.len() + 1 as int)) by {
                    assert forall|i: int| 0 <= i < to.len() + 1 implies (to + "/"@)[i]
                        == from[i] by {
                        assert(from[i] == (from + "/"@)[i]);
                        assert((from + "/"@)[i] == t.subrange(0, from.len() + 1 as int)[i]);
                        assert(t.subrange(0, from.len() + 1 as int)[i] == t[i]);
                        if i < to.len() {
                            assert(t[i] == to[i]);
                        } else {
                            assert(t[i] == rest[0]);
                        }
                    }
                }
            }
        }
    }
}

impl FsTree {
    /// Moves the contents of the directory `from_dir` into `to_dir`, merge
    /// style: files already under the destination stay unless a moved file
    /// lands on their path, in which case the moved file wins. The two
    /// directories must not lie inside one another.
    #[verifier::rlimit(60)]
    pub fn move_dir_contents(&mut self, from_dir: &str, to_dir: &str)
        requires
            old(self).wf(),
            from_dir@ == to_dir@ || (!under_dir(to_dir@, from_dir@) && !under_dir(
                from_dir@,
                to_dir@,
            )),
        ensures
            final(self).wf(),
            forall|q: Seq<char>|
                old(self).has_file(q) && under_dir(q, from_dir@) ==> #[trigger] final(self).has_file(repath(q, from_dir@, to_dir@)),
            forall|q: Seq<char>|
                old(self).has_file(q) && under_dir(q, from_dir@) ==> #[trigger] final(self).file_content(repath(q, from_dir@, to_dir@)) == old(self).file_content(q),
            forall|q: Seq<char>|
                old(self).has_file(q) && under_dir(q, from_dir@) ==> #[trigger] final(self).file_ast(repath(q, from_dir@, to_dir@)) == old(self).file_ast(q),
            forall|p: Seq<char>|
                old(self).has_file(p) && !under_dir(p, from_dir@) && !is_move_target(
                    *old(self),
                    p,
                    from_dir@,
                    to_dir@,
                ) ==> #[trigger] final(self).has_file(p) && final(self).file_content(p) == old(self).file_content(p) && final(self).file_ast(p) == old(self).file_ast(p),
            forall|p: Seq<char>|
                #[trigger] final(self).has_file(p) ==> ((old(self).has_file(p) && !under_dir(
                    p,
                    from_dir@,
                )) || is_move_target(*old(self), p, from_dir@, to_dir@)),
            forall|d: Seq<char>|
                #[trigger] final(self).has_dir(d) <==> (exists|e: Seq<char>|
                    #[trigger] old(self).has_dir(e) && d == (if e == from_dir@ {
                        to_dir@
                    } else if under_dir(e, from_dir@) {
                        to_dir@ + e.skip(from_dir@.len() as int)
                    } else {
                        e
                    })),
    {
        let ghost orig = *self;
        if str_eq(from_dir, to_dir) {
            proof {
                reveal_strlit("/");
                assert forall|q: Seq<char>|
                    orig.has_file(q) && under_dir(q, from_dir@) implies repath(
                    q,
                    from_dir@,
                    to_dir@,
                ) == q by {
                    lemma_under_dir_parts(q, from_dir@);
                }
                assert forall|p: Seq<char>|
                    self.has_dir(p) implies (exists|e: Seq<char>|
                    #[trigger] orig.has_dir(e) && p == (if e == from_dir@ {
                        to_dir@
                    } else if under_dir(e, from_dir@) {
                        to_dir@ + e.skip(from_dir@.len() as int)
                    } else {
                        e
                    })) by {
                    assert(orig.has_dir(p) && p == (if p == from_dir@ {
                        to_dir@
                    } else if under_dir(p, from_dir@) {
                        to_dir@ + p.skip(from_dir@.len() as int)
                    } else {
                        p
                    })) by {
                        if p != from_dir@ && under_dir(p, from_dir@) {
                            lemma_under_dir_parts(p, from_dir@);
                        }
                    }
                }
                assert forall|e: Seq<char>| orig.has_dir(e) implies self.has_dir(
                    (if e == from_dir@ {
                        to_dir@
                    } else if under_dir(e, from_dir@) {
                        to_dir@ + e.skip(from_dir@.len() as int)
                    } else {
                        e
                    }),
                ) by {
                    if e != from_dir@ && under_dir(e, from_dir@) {
                        lemma_under_dir_parts(e, from_dir@);
                    }
                }
            }
            return;
        }
        let mut fslash = from_dir.to_owned();
        fslash.append("/");
        proof {
            reveal_strlit("/");
        }
        let mut sources: Vec<String> = Vec::new();
        let mut i: usize = 0;
        while i < self.files.len()
            invariant
                i <= self.files@.len(),
                fslash@ == from_dir@ + "/"@,
                sources.deep_view() =~= sources_spec(self.files@.take(i as int), from_dir@),
            decreases self.files@.len() - i,
        {
            proof {
                assert(self.files@.take(i + 1).drop_last() =~= self.files@.take(i as int));
                assert(self.files@.take(i + 1).last() == self.files@[i as int]);
            }
            let ghost old_dv = sources.deep_view();
            if starts_with_str(self.files[i].path.as_str(), fslash.as_str()) {
                sources.push(self.files[i].path.clone());
                proof {
                    assert(sources.deep_view() =~= old_dv.push(sources@.last()@));
                }
            }
            i += 1;
        }
        assert(self.files@.take(self.files@.len() as int) =~= self.files@);
        let ghost srcs = sources.deep_view();
        proof {
            assert forall|idx: int| 0 <= idx < srcs.len() implies orig.has_file(#[trigger] srcs[idx])
                && under_dir(srcs[idx], from_dir@) by {
                lemma_sources_sound(orig.files@, from_dir@, idx);
                let j = choose|j: int|
                    0 <= j < orig.files@.len() && (#[trigger] orig.files@[j]).path@ == srcs[idx]
                        && under_dir(orig.files@[j].path@, from_dir@);
                lemma_seq_has_file_of_index(orig.files@, j);
            }
            assert forall|a: int, b: int|
                0 <= a < b < srcs.len() implies #[trigger] srcs[a] != #[trigger] srcs[b] by {
                lemma_sources_distinct(orig.files@, from_dir@, a, b);
            }
            assert forall|q: Seq<char>|
                orig.has_file(q) && under_dir(q, from_dir@) implies #[trigger] srcs.contains(
                q,
            ) by {
                lemma_file_index_of(orig.files@, q);
                lemma_sources_complete(orig.files@, from_dir@, file_index_of(orig.files@, q));
            }
        }
        let n = sources.len();
        let flen = from_dir.unicode_len();
        let mut k: usize = 0;
        while k < n
            invariant
                self.wf(),
                orig.wf(),
                from_dir@ != to_dir@,
                !under_dir(to_dir@, from_dir@),
                !under_dir(from_dir@, to_dir@),
                flen == from_dir@.len(),
                n == srcs.len(),
                k <= n,
                forall|idx: int|
                    0 <= idx < n ==> orig.has_file(#[trigger] srcs[idx]) && under_dir(
                        srcs[idx],
                        from_dir@,
                    ),
                forall|a: int, b: int| 0 <= a < b < n ==> #[trigger] srcs[a] != #[trigger] srcs[b],
                forall|q: Seq<char>|
                    orig.has_file(q) && under_dir(q, from_dir@) ==> #[trigger] srcs.contains(q),
                sources@.len() == n,
                forall|idx: int| 0 <= idx < n ==> (#[trigger] sources@[idx])@ == srcs[idx],
                forall|p: Seq<char>|
                    #[trigger] self.has_file(p) <==> ((orig.has_file(p) && !processed_source(
                        srcs,
                        k as int,
                        p,
                    )) || processed_target(srcs, k as int, p, from_dir@, to_dir@)),
                forall|idx: int|
                    0 <= idx < k ==> #[trigger] self.file_content(
                        repath(srcs[idx], from_dir@, to_dir@),
                    ) == orig.file_content(srcs[idx]),
                forall|idx: int|
                    0 <= idx < k ==> #[trigger] self.file_ast(
                        repath(srcs[idx], from_dir@, to_dir@),
                    ) == orig.file_ast(srcs[idx]),
                forall|p: Seq<char>|
                    orig.has_file(p) && !processed_source(srcs, k as int, p) && !processed_target(
                        srcs,
                        k as int,
                        p,
                        from_dir@,
                        to_dir@,
                    ) ==> #[trigger] self.file_content(p) == orig.file_content(p)
                        && self.file_ast(p) == orig.file_ast(p),
                self.dirs@ == orig.dirs@,
            decreases n - k,
        {
            let src = sources[k].clone();
            let srcn = src.as_str().unicode_len();
            proof {
                lemma_under_dir_parts(srcs[k as int], from_dir@);
            }
            let mut target = to_dir.to_owned();
            target.append(src.as_str().substring_char(flen, srcn));
            proof {
                assert(src@.subrange(flen as int, srcn as int) =~= src@.skip(flen as int));
                assert(target@ == repath(srcs[k as int], from_dir@, to_dir@));
                lemma_target_not_under(srcs[k as int], from_dir@, to_dir@);
                assert(!processed_source(srcs, k as int, src@));
                assert(!processed_target(srcs, k as int, src@, from_dir@, to_dir@)) by {
                    if processed_target(srcs, k as int, src@, from_dir@, to_dir@) {
                        let idx = choose|idx: int|
                            0 <= idx < k && repath(srcs[idx], from_dir@, to_dir@) == src@;
                        lemma_target_not_under(srcs[idx], from_dir@, to_dir@);
                    }
                }
                assert(self.has_file(src@));
            }
            let ghost pre = *self;
            proof {
                assert(pre.file_content(src@) == orig.file_content(src@));
                assert(pre.file_ast(src@) == orig.file_ast(src@));
            }
            let rename_result = self.rename_file(src.as_str(), target.as_str());
            proof {
                assert(rename_result is Ok);
                assert(self.file_content(target@) == orig.file_content(src@));
                assert(self.file_ast(target@) == orig.file_ast(src@));
                assert forall|p: Seq<char>| #[trigger]
                    self.has_file(p) <==> ((orig.has_file(p) && !processed_source(
                    srcs,
                    k + 1,
                    p,
                )) || processed_target(srcs, k + 1, p, from_dir@, to_dir@)) by {
                    lemma_move_step_has(orig, pre, *self, srcs, k as int, from_dir@, to_dir@, p);
                }
                assert forall|idx: int|
                    0 <= idx < k + 1 implies #[trigger] self.file_content(
                    repath(srcs[idx], from_dir@, to_dir@),
                ) == orig.file_content(srcs[idx]) by {
                    if idx < k {
                        let t = repath(srcs[idx], from_dir@, to_dir@);
                        assert(t != src@) by {
                            lemma_target_not_under(srcs[idx], from_dir@, to_dir@);
                        }
                        assert(t != target@) by {
                            if t == target@ {
                                lemma_repath_injective(
                                    srcs[idx],
                                    srcs[k as int],
                                    from_dir@,
                                    to_dir@,
                                );
                            }
                        }
                        assert(pre.has_file(t));
                        assert(self.file_content(t) == pre.file_content(t));
                    }
                }
                assert forall|idx: int|
                    0 <= idx < k + 1 implies #[trigger] self.file_ast(
                    repath(srcs[idx], from_dir@, to_dir@),
                ) == orig.file_ast(srcs[idx]) by {
                    if idx < k {
                        let t = repath(srcs[idx], from_dir@, to_dir@);
                        assert(t != src@) by {
                            lemma_target_not_under(srcs[idx], from_dir@, to_dir@);
                        }
                        assert(t != target@) by {
                            if t == target@ {
                                lemma_repath_injective(
                                    srcs[idx],
                                    srcs[k as int],
                                    from_dir@,
                                    to_dir@,
                                );
                            }
                        }
                        assert(pre.has_file(t));
                        assert(self.file_content(t) == pre.file_content(t));
                        assert(self.file_ast(t) == pre.file_ast(t));
                    }
                }
                assert forall|p: Seq<char>|
                    orig.has_file(p) && !processed_source(srcs, k + 1, p) && !processed_target(
                        srcs,
                        k + 1,
                        p,
                        from_dir@,
                        to_dir@,
                    ) implies #[trigger] self.file_content(p) == orig.file_content(p)
                    && self.file_ast(p) == orig.file_ast(p) by {
                    assert(!processed_source(srcs, k as int, p));
                    assert(!processed_target(srcs, k as int, p, from_dir@, to_dir@)) by {
                        if processed_target(srcs, k as int, p, from_dir@, to_dir@) {
                            let idx = choose|idx: int|
                                0 <= idx < k && repath(srcs[idx], from_dir@, to_dir@) == p;
                            assert(processed_target(srcs, k + 1, p, from_dir@, to_dir@));
                        }
                    }
                    assert(p != src@);
                    assert(p != target@);
                    assert(pre.file_content(p) == orig.file_content(p));
                    assert(pre.has_file(p));
                    assert(self.file_content(p) == pre.file_content(p));
                    assert(self.file_ast(p) == pre.file_ast(p));
                }
            }
            k += 1;
        }
        proof {
            assert forall|q: Seq<char>|
                orig.has_file(q) && under_dir(q, from_dir@) implies #[trigger] self.has_file(
                repath(q, from_dir@, to_dir@),
            ) by {
                assert(srcs.contains(q));
                let idx = choose|idx: int| 0 <= idx < srcs.len() && #[trigger] srcs[idx] == q;
                assert(repath(srcs[idx], from_dir@, to_dir@) == repath(q, from_dir@, to_dir@));
                assert(processed_target(srcs, n as int, repath(q, from_dir@, to_dir@), from_dir@, to_dir@));
            }
            assert forall|q: Seq<char>|
                orig.has_file(q) && under_dir(q, from_dir@) implies #[trigger] self.file_content(
                repath(q, from_dir@, to_dir@),
            ) == orig.file_content(q) by {
                assert(srcs.contains(q));
                let idx = choose|idx: int| 0 <= idx < srcs.len() && #[trigger] srcs[idx] == q;
                assert(self.file_content(repath(srcs[idx], from_dir@, to_dir@))
                    == orig.file_content(srcs[idx]));
            }
            assert forall|q: Seq<char>|
                orig.has_file(q) && under_dir(q, from_dir@) implies #[trigger] self.file_ast(
                repath(q, from_dir@, to_dir@),
            ) == orig.file_ast(q) by {
                assert(srcs.contains(q));
                let idx = choose|idx: int| 0 <= idx < srcs.len() && #[trigger] srcs[idx] == q;
                assert(self.file_ast(repath(srcs[idx], from_dir@, to_dir@))
                    == orig.file_ast(srcs[idx]));
            }
            assert forall|p: Seq<char>|
                orig.has_file(p) && !under_dir(p, from_dir@) && !is_move_target(
                    orig,
                    p,
                    from_dir@,
                    to_dir@,
                ) implies #[trigger] self.has_file(p) && self.file_content(p)
                == orig.file_content(p) && self.file_ast(p) == orig.file_ast(p) by {
                assert(!processed_source(srcs, n as int, p)) by {
                    if processed_source(srcs, n as int, p) {
                        let idx = choose|idx: int| 0 <= idx < n && srcs[idx] == p;
                        assert(under_dir(p, from_dir@));
                    }
                }
                assert(!processed_target(srcs, n as int, p, from_dir@, to_dir@)) by {
                    if processed_target(srcs, n as int, p, from_dir@, to_dir@) {
                        let idx = choose|idx: int|
                            0 <= idx < n && #[trigger] repath(srcs[idx], from_dir@, to_dir@) == p;
                        assert(orig.has_file(srcs[idx]) && under_dir(srcs[idx], from_dir@)
                            && p == repath(srcs[idx], from_dir@, to_dir@));
                        assert(is_move_target(orig, p, from_dir@, to_dir@));
                    }
                }
            }
            assert forall|p: Seq<char>| #[trigger]
                self.has_file(p) implies ((orig.has_file(p) && !under_dir(p, from_dir@))
                || is_move_target(orig, p, from_dir@, to_dir@)) by {
                if orig.has_file(p) && !processed_source(srcs, n as int, p) {
                    if under_dir(p, from_dir@) {
                        assert(srcs.contains(p));
                        let idx = choose|idx: int| 0 <= idx < srcs.len() && srcs[idx] == p;
                        assert(processed_source(srcs, n as int, p));
                    }
                }
                if processed_target(srcs, n as int, p, from_dir@, to_dir@) {
                    let idx = choose|idx: int|
                        0 <= idx < n && repath(srcs[idx], from_dir@, to_dir@) == p;
                    assert(orig.has_file(srcs[idx]) && under_dir(srcs[idx], from_dir@));
                    assert(is_move_target(orig, p, from_dir@, to_dir@));
                }
            }
        }
        let ghost mid = *self;
        self.move_dirs(from_dir, to_dir);
        proof {
            assert(self.files@ == mid.files@);
            assert forall|p: Seq<char>| #[trigger] self.has_file(p) == mid.has_file(p) by {}
            assert forall|p: Seq<char>| #[trigger]
                self.file_content(p) == mid.file_content(p) by {}
            assert forall|p: Seq<char>| #[trigger] self.file_ast(p) == mid.file_ast(p) by {}
            assert(mid.dirs@ == orig.dirs@);
            assert forall|d: Seq<char>| #[trigger] mid.has_dir(d) == orig.has_dir(d) by {
                if mid.has_dir(d) {
                    let i = choose|i: int|
                        0 <= i < mid.dirs@.len() && (#[trigger] mid.dirs@[i])@ == d;
                    assert(orig.dirs@[i]@ == d);
                }
                if orig.has_dir(d) {
                    let i = choose|i: int|
                        0 <= i < orig.dirs@.len() && (#[trigger] orig.dirs@[i])@ == d;
                    assert(mid.dirs@[i]@ == d);
                }
            }
            assert forall|d: Seq<char>| #[trigger]
                self.has_dir(d) <==> (exists|e: Seq<char>|
                #[trigger] orig.has_dir(e) && d == (if e == from_dir@ {
                    to_dir@
                } else if under_dir(e, from_dir@) {
                    to_dir@ + e.skip(from_dir@.len() as int)
                } else {
                    e
                })) by {
                if self.has_dir(d) {
                    let e = choose|e: Seq<char>|
                        #[trigger] mid.has_dir(e) && d == (if e == from_dir@ {
                            to_dir@
                        } else if under_dir(e, from_dir@) {
                            to_dir@ + e.skip(from_dir@.len() as int)
                        } else {
                            e
                        });
                    assert(orig.has_dir(e));
                }
                if exists|e: Seq<char>|
                    #[trigger] orig.has_dir(e) && d == (if e == from_dir@ {
                        to_dir@
                    } else if under_dir(e, from_dir@) {
                        to_dir@ + e.skip(from_dir@.len() as int)
                    } else {
                        e
                    }) {
                    let e = choose|e: Seq<char>|
                        #[trigger] orig.has_dir(e) && d == (if e == from_dir@ {
                            to_dir@
                        } else if under_dir(e, from_dir@) {
                            to_dir@ + e.skip(from_dir@.len() as int)
                        } else {
                            e
                        });
                    assert(mid.has_dir(e));
                }
            }
        }
    }

    /// Re-roots the directory entries inside `from_dir` into `to_dir`.
    fn move_dirs(&mut self, from_dir: &str, to_dir: &str)
        requires
            old(self).wf(),
        ensures
            final(self).wf(),
            final(self).files@ == old(self).files@,
            forall|d: Seq<char>|
                #[trigger] final(self).has_dir(d) <==> (exists|e: Seq<char>|
                    #[trigger] old(self).has_dir(e) && d == (if e == from_dir@ {
                        to_dir@
                    } else if under_dir(e, from_dir@) {
                        to_dir@ + e.skip(from_dir@.len() as int)
                    } else {
                        e
                    })),
    {
        let mut fslash = from_dir.to_owned();
        fslash.append("/");
        proof {
            reveal_strlit("/");
        }
        let flen = from_dir.unicode_len();
        let mut new_dirs: Vec<String> = Vec::new();
        let mut i: usize = 0;
        while i < self.dirs.len()
            invariant
                i <= self.dirs@.len(),
                flen == from_dir@.len(),
                fslash@ == from_dir@ + "/"@,
                new_dirs@.len() == i,
                forall|j: int|
                    0 <= j < i ==> (#[trigger] new_dirs@[j])@ == (if self.dirs@[j]@ == from_dir@ {
                        to_dir@
                    } else if under_dir(self.dirs@[j]@, from_dir@) {
                        to_dir@ + self.dirs@[j]@.skip(from_dir@.len() as int)
                    } else {
                        self.dirs@[j]@
                    }),
            decreases self.dirs@.len() - i,
        {
            let d = self.dirs[i].clone();
            if str_eq(d.as_str(), from_dir) {
                new_dirs.push(to_dir.to_owned());
            } else if starts_with_str(d.as_str(), fslash.as_str()) {
                let dn = d.as_str().unicode_len();
                let mut nd = to_dir.to_owned();
                nd.append(d.as_str().substring_char(flen, dn));
                proof {
                    lemma_under_dir_parts(d@, from_dir@);
                    assert(d@.subrange(flen as int, dn as int) =~= d@.skip(flen as int));
                }
                new_dirs.push(nd);
            } else {
                new_dirs.push(d);
            }
            i += 1;
        }
        self.dirs = new_dirs;
        proof {
            assert forall|d: Seq<char>| #[trigger]
                self.has_dir(d) <==> (exists|e: Seq<char>|
                #[trigger] old(self).has_dir(e) && d == (if e == from_dir@ {
                    to_dir@
                } else if under_dir(e, from_dir@) {
                    to_dir@ + e.skip(from_dir@.len() as int)
                } else {
                    e
                })) by {
                if self.has_dir(d) {
                    let j = choose|j: int|
                        0 <= j < self.dirs@.len() && (#[trigger] self.dirs@[j])@ == d;
                    let e = old(self).dirs@[j]@;
                    assert(old(self).has_dir(e));
                }
                if exists|e: Seq<char>|
                    #[trigger] old(self).has_dir(e) && d == (if e == from_dir@ {
                        to_dir@
                    } else if under_dir(e, from_dir@) {
                        to_dir@ + e.skip(from_dir@.len() as int)
                    } else {
                        e
                    }) {
                    let e = choose|e: Seq<char>|
                        #[trigger] old(self).has_dir(e) && d == (if e == from_dir@ {
                            to_dir@
                        } else if under_dir(e, from_dir@) {
                            to_dir@ + e.skip(from_dir@.len() as int)
                        } else {
                            e
                        });
                    let j = choose|j: int|
                        0 <= j < old(self).dirs@.len() && (#[trigger] old(self).dirs@[j])@ == e;
                    assert(self.dirs@[j]@ == d);
                }
            }
        }
    }
}

/// A file's own path is always found in the list that holds it.
pub proof fn lemma_seq_has_file_of_index(files: Seq<SourceFile>, i: int)
    requires
        0 <= i < files.len(),
    ensures
        seq_has_file(files, files[i].path@),
    decreases files.len(),
{
    if files[0].path@ != files[i].path@ {
        lemma_seq_has_file_of_index(files.drop_first(), i - 1);
        assert(files.drop_first()[i - 1] == files[i]);
    }
}

/// The path `p` is one of the first `k` collected source paths.
pub open spec fn processed_source(srcs: Seq<Seq<char>>, k: int, p: Seq<char>) -> bool {
    exists|idx: int| 0 <= idx < k && #[trigger] srcs[idx] == p
}

/// The path `p` is where one of the first `k` collected source paths
/// lands.
pub open spec fn processed_target(
    srcs: Seq<Seq<char>>,
    k: int,
    p: Seq<char>,
    from: Seq<char>,
    to: Seq<char>,
) -> bool {
    exists|idx: int| 0 <= idx < k && #[trigger] repath(srcs[idx], from, to) == p
}

/// Two distinct collected source paths differ.
proof fn lemma_sources_distinct(files: Seq<SourceFile>, from: Seq<char>, a: int, b: int)
    requires
        forall|i: int, j: int|
            0 <= i < j < files.len() ==> (#[trigger] files[i]).path@ != (#[trigger] files[j]).path@,
        0 <= a < b < sources_spec(files, from).len(),
    ensures
        sources_spec(files, from)[a] != sources_spec(files, from)[b],
    decreases files.len(),
{
    if files.len() > 0 {
        let s = sources_spec(files, from);
        let sd = sources_spec(files.drop_last(), from);
        assert forall|i: int, j: int|
            0 <= i < j < files.drop_last().len() implies (#[trigger] files.drop_last()[i]).path@
            != (#[trigger] files.drop_last()[j]).path@ by {
            assert(files.drop_last()[i] == files[i]);
            assert(files.drop_last()[j] == files[j]);
        }
        if b < sd.len() {
            lemma_sources_distinct(files.drop_last(), from, a, b);
        } else {
            lemma_sources_sound(files.drop_last(), from, a);
            let j = choose|j: int|
                0 <= j < files.drop_last().len() && (#[trigger] files.drop_last()[j]).path@
                    == sd[a] && under_dir(files.drop_last()[j].path@, from);
            assert(files[j] == files.drop_last()[j]);
            assert(s[b] == files.last().path@);
            assert(files.last() == files[files.len() - 1]);
        }
    }
}

/// One rename step keeps the processed/unprocessed bookkeeping of the
/// move straight.
proof fn lemma_move_step_has(
    orig: FsTree,
    pre: FsTree,
    post: FsTree,
    srcs: Seq<Seq<char>>,
    k: int,
    from: Seq<char>,
    to: Seq<char>,
    p: Seq<char>,
)
    requires
        0 <= k < srcs.len(),
        forall|idx: int|
            0 <= idx < srcs.len() ==> orig.has_file(#[trigger] srcs[idx]) && under_dir(
                srcs[idx],
                from,
            ),
        forall|a: int, b: int| 0 <= a < b < srcs.len() ==> #[trigger] srcs[a] != #[trigger] srcs[b],
        from != to,
        !under_dir(to, from),
        !under_dir(from, to),
        forall|pp: Seq<char>|
            #[trigger] pre.has_file(pp) <==> ((orig.has_file(pp) && !processed_source(
                srcs,
                k,
                pp,
            )) || processed_target(srcs, k, pp, from, to)),
        forall|pp: Seq<char>|
            #[trigger] post.has_file(pp) <==> ((pre.has_file(pp) && pp != srcs[k]) || pp == repath(
                srcs[k],
                from,
                to,
            )),
    ensures
        post.has_file(p) <==> ((orig.has_file(p) && !processed_source(srcs, k + 1, p))
            || processed_target(srcs, k + 1, p, from, to)),
{
    let tk = repath(srcs[k], from, to);
    if post.has_file(p) {
        if p == tk {
            assert(repath(srcs[k], from, to) == p);
            assert(processed_target(srcs, k + 1, p, from, to));
        } else {
            assert(pre.has_file(p) && p != srcs[k]);
            if orig.has_file(p) && !processed_source(srcs, k, p) {
                assert(!processed_source(srcs, k + 1, p));
            } else {
                let idx = choose|idx: int| 0 <= idx < k && #[trigger] repath(srcs[idx], from, to) == p;
                assert(processed_target(srcs, k + 1, p, from, to));
            }
        }
    }
    if orig.has_file(p) && !processed_source(srcs, k + 1, p) {
        assert(!processed_source(srcs, k, p));
        assert(p != srcs[k]);
        if processed_target(srcs, k, p, from, to) {
            assert(pre.has_file(p));
        } else {
            assert(pre.has_file(p));
        }
        assert(post.has_file(p));
    }
    if processed_target(srcs, k + 1, p, from, to) {
        let idx = choose|idx: int| 0 <= idx < k + 1 && #[trigger] repath(srcs[idx], from, to) == p;
        if idx == k {
            assert(post.has_file(p));
        } else {
            assert(processed_target(srcs, k, p, from, to));
            assert(pre.has_file(p));
            assert(p != srcs[k]) by {
                if p == srcs[k] {
                    lemma_target_not_under(srcs[idx], from, to);
                }
            }
            assert(post.has_file(p));
        }
    }
}

/// The paths of the files inside the directory `from`, in file order.
pub open spec fn sources_spec(files: Seq<SourceFile>, from: Seq<char>) -> Seq<Seq<char>>
    decreases files.len(),
{
    if files.len() == 0 {
        Seq::<Seq<char>>::empty()
    } else {
        sources_spec(files.drop_last(), from) + (if under_dir(files.last().path@, from) {
            seq![files.last().path@]
        } else {
            Seq::<Seq<char>>::empty()
        })
    }
}

proof fn lemma_sources_sound(files: Seq<SourceFile>, from: Seq<char>, idx: int)
    requires
        0 <= idx < sources_spec(files, from).len(),
    ensures
        exists|j: int|
            0 <= j < files.len() && (#[trigger] files[j]).path@ == sources_spec(files, from)[idx]
                && under_dir(files[j].path@, from),
    decreases files.len(),
{
    if files.len() > 0 {
        if idx < sources_spec(files.drop_last(), from).len() {
            lemma_sources_sound(files.drop_last(), from, idx);
            let j = choose|j: int|
                0 <= j < files.drop_last().len() && (#[trigger] files.drop_last()[j]).path@
                    == sources_spec(files.drop_last(), from)[idx] && under_dir(
                    files.drop_last()[j].path@,
                    from,
                );
            assert(files[j] == files.drop_last()[j]);
        } else {
            assert(files[files.len() - 1] == files.last());
        }
    }
}

proof fn lemma_sources_complete(files: Seq<SourceFile>, from: Seq<char>, j: int)
    requires
        0 <= j < files.len(),
        under_dir(files[j].path@, from),
    ensures
        sources_spec(files, from).contains(files[j].path@),
    decreases files.len(),
{
    if j == files.len() - 1 {
        assert(sources_spec(files, from).last() == files[j].path@);
    } else {
        lemma_sources_complete(files.drop_last(), from, j);
        assert(files.drop_last()[j] == files[j]);
        let idx = choose|idx: int|
            0 <= idx < sources_spec(files.drop_last(), from).len() && sources_spec(
                files.drop_last(),
                from,
            )[idx] == files[j].path@;
        assert(sources_spec(files, from)[idx] == files[j].path@);
    }
}

/// Appending a file keeps every lookup of another path, and makes a fresh
/// path found at the end.
pub proof fn lemma_file_index_push(files: Seq<SourceFile>, f: SourceFile, p: Seq<char>)
    ensures
        p != f.path@ ==> file_index_of(files.push(f), p) == file_index_of(files, p),
        (p == f.path@ && !seq_has_file(files, p)) ==> file_index_of(files.push(f), p)
            == files.len(),
    decreases files.len(),
{
    if files.len() == 0 {
        assert(files.push(f)[0] == f);
        assert(files.push(f).drop_first() =~= files);
    } else {
        lemma_file_index_push(files.drop_first(), f, p);
        assert(files.push(f)[0] == files[0]);
        assert(files.push(f).drop_first() =~= files.drop_first().push(f));
    }
}

} // verus!
