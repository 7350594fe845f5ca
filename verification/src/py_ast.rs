//! The syntax-tree model consumed by the symbol extractor.
//!
//! The external parser is a black box; what the extractor reads from its
//! output is modelled here as plain values: statement kinds, identifier
//! names, and character spans into the original source text. Expression
//! fragments are never copied into the tree — they stay as spans, and the
//! extractor slices them out of the source, which is what makes every
//! stored fragment an exact substring of the file.

use vstd::prelude::*;

verus! {

/// A half-open character range `[start, end)` into a source text.
#[derive(Clone, Copy, Debug, PartialEq, Eq, Structural)]
pub struct Span {
    pub start: usize,
    pub end: usize,
}

impl Span {
    /// The span lies within a text of `n` characters.
    pub open spec fn ok(self, n: nat) -> bool {
        self.start <= self.end && self.end <= n
    }
}

/// The optional span lies within a text of `n` characters.
pub open spec fn opt_span_ok(s: Option<Span>, n: nat) -> bool {
    match s {
        Some(sp) => sp.ok(n),
        None => true,
    }
}

/// The characters a span denotes.
pub open spec fn spec_slice(code: Seq<char>, s: Span) -> Seq<char> {
    code.subrange(s.start as int, s.end as int)
}

/// The characters an optional span denotes.
pub open spec fn spec_slice_opt(code: Seq<char>, s: Option<Span>) -> Option<Seq<char>> {
    match s {
        Some(sp) => Some(spec_slice(code, sp)),
        None => None,
    }
}

/// One declared argument: its name and an optional annotation span.
#[derive(Clone, Debug)]
pub struct ArgDecl {
    pub name: String,
    pub annotation: Option<Span>,
}

impl ArgDecl {
    pub open spec fn ok(&self, n: nat) -> bool {
        opt_span_ok(self.annotation, n)
    }
}

/// A declared argument together with an optional default-value span.
#[derive(Clone, Debug)]
pub struct ArgWithDefaultDecl {
    pub def: ArgDecl,
    pub default: Option<Span>,
}

impl ArgWithDefaultDecl {
    pub open spec fn ok(&self, n: nat) -> bool {
        self.def.ok(n) && opt_span_ok(self.default, n)
    }
}

/// A function's argument list, grouped as the language groups it:
/// positional arguments, an optional variadic-positional argument,
/// keyword-only arguments, an optional variadic-keyword argument.
#[derive(Clone, Debug)]
pub struct ArgumentsDecl {
    pub args: Vec<ArgWithDefaultDecl>,
    pub vararg: Option<ArgDecl>,
    pub kwonlyargs: Vec<ArgWithDefaultDecl>,
    pub kwarg: Option<ArgDecl>,
}

impl ArgumentsDecl {
    pub open spec fn ok(&self, n: nat) -> bool {
        &&& forall|i: int| 0 <= i < self.args@.len() ==> (#[trigger] self.args@[i]).ok(n)
        &&& match self.vararg {
            Some(ref a) => a.ok(n),
            None => true,
        }
        &&& forall|i: int|
            0 <= i < self.kwonlyargs@.len() ==> (#[trigger] self.kwonlyargs@[i]).ok(n)
        &&& match self.kwarg {
            Some(ref a) => a.ok(n),
            None => true,
        }
    }
}

/// A function definition statement: name, arguments, and an optional
/// return-type span.
#[derive(Clone, Debug)]
pub struct FunctionDefStmt {
    pub name: String,
    pub args: ArgumentsDecl,
    pub returns: Option<Span>,
}

impl FunctionDefStmt {
    pub open spec fn ok(&self, n: nat) -> bool {
        self.args.ok(n) && opt_span_ok(self.returns, n)
    }
}

/// A statement inside a class body; only function definitions matter to
/// the extractor.
#[derive(Clone, Debug)]
pub enum ClassBodyStmt {
    FunctionDef(FunctionDefStmt),
    AsyncFunctionDef(FunctionDefStmt),
    Other,
}

impl ClassBodyStmt {
    pub open spec fn ok(&self, n: nat) -> bool {
        match self {
            ClassBodyStmt::FunctionDef(f) => f.ok(n),
            ClassBodyStmt::AsyncFunctionDef(f) => f.ok(n),
            ClassBodyStmt::Other => true,
        }
    }
}

/// A class definition statement: name, base-class expression spans, and
/// its body.
#[derive(Clone, Debug)]
pub struct ClassDefStmt {
    pub name: String,
    pub bases: Vec<Span>,
    pub body: Vec<ClassBodyStmt>,
}

impl ClassDefStmt {
    pub open spec fn ok(&self, n: nat) -> bool {
        &&& forall|i: int| 0 <= i < self.bases@.len() ==> (#[trigger] self.bases@[i]).ok(n)
        &&& forall|i: int| 0 <= i < self.body@.len() ==> (#[trigger] self.body@[i]).ok(n)
    }
}

/// An assignment target: a plain name, or anything else, which the
/// extractor ignores.
#[derive(Clone, Debug)]
pub enum TargetExpr {
    Named(String),
    Unnamed,
}

/// A simple assignment statement: its targets and the span of its
/// right-hand side.
#[derive(Clone, Debug)]
pub struct AssignStmt {
    pub targets: Vec<TargetExpr>,
    pub value: Span,
}

impl AssignStmt {
    pub open spec fn ok(&self, n: nat) -> bool {
        self.value.ok(n)
    }
}

/// An annotated assignment statement: target, annotation span, and the
/// optional span of its right-hand side.
#[derive(Clone, Debug)]
pub struct AnnAssignStmt {
    pub target: TargetExpr,
    pub annotation: Span,
    pub value: Option<Span>,
}

impl AnnAssignStmt {
    pub open spec fn ok(&self, n: nat) -> bool {
        self.annotation.ok(n) && opt_span_ok(self.value, n)
    }
}

/// A top-level statement, reduced to what the extractor reads.
#[derive(Clone, Debug)]
pub enum StmtNode {
    ClassDef(ClassDefStmt),
    FunctionDef(FunctionDefStmt),
    AsyncFunctionDef(FunctionDefStmt),
    Assign(AssignStmt),
    AnnAssign(AnnAssignStmt),
    Other,
}

impl StmtNode {
    pub open spec fn ok(&self, n: nat) -> bool {
        match self {
            StmtNode::ClassDef(c) => c.ok(n),
            StmtNode::FunctionDef(f) => f.ok(n),
            StmtNode::AsyncFunctionDef(f) => f.ok(n),
            StmtNode::Assign(a) => a.ok(n),
            StmtNode::AnnAssign(a) => a.ok(n),
            StmtNode::Other => true,
        }
    }
}

/// Every span in the tree lies within a text of `n` characters.
pub open spec fn ast_ok(ast: Seq<StmtNode>, n: nat) -> bool {
    forall|i: int| 0 <= i < ast.len() ==> (#[trigger] ast[i]).ok(n)
}

fn check_span(s: &Span, n: usize) -> (b: bool)
    ensures
        b == s.ok(n as nat),
{
    s.start <= s.end && s.end <= n
}

fn check_opt_span(s: &Option<Span>, n: usize) -> (b: bool)
    ensures
        b == opt_span_ok(*s, n as nat),
{
    match s {
        Some(sp) => check_span(sp, n),
        None => true,
    }
}

fn check_arg(a: &ArgDecl, n: usize) -> (b: bool)
    ensures
        b == a.ok(n as nat),
{
    check_opt_span(&a.annotation, n)
}

fn check_arg_with_default(a: &ArgWithDefaultDecl, n: usize) -> (b: bool)
    ensures
        b == a.ok(n as nat),
{
    check_arg(&a.def, n) && check_opt_span(&a.default, n)
}

fn check_arg_vec(args: &Vec<ArgWithDefaultDecl>, n: usize) -> (b: bool)
    ensures
        b == forall|i: int| 0 <= i < args@.len() ==> (#[trigger] args@[i]).ok(n as nat),
{
    let mut i: usize = 0;
    while i < args.len()
        invariant
            i <= args@.len(),
            forall|k: int| 0 <= k < i ==> (#[trigger] args@[k]).ok(n as nat),
        decreases args@.len() - i,
    {
        if !check_arg_with_default(&args[i], n) {
            return false;
        }
        i += 1;
    }
    true
}

fn check_arguments(d: &ArgumentsDecl, n: usize) -> (b: bool)
    ensures
        b == d.ok(n as nat),
{
    let va = match &d.vararg {
        Some(a) => check_arg(a, n),
        None => true,
    };
    let ka = match &d.kwarg {
        Some(a) => check_arg(a, n),
        None => true,
    };
    check_arg_vec(&d.args, n) && va && check_arg_vec(&d.kwonlyargs, n) && ka
}

fn check_function(f: &FunctionDefStmt, n: usize) -> (b: bool)
    ensures
        b == f.ok(n as nat),
{
    check_arguments(&f.args, n) && check_opt_span(&f.returns, n)
}

fn check_class(c: &ClassDefStmt, n: usize) -> (b: bool)
    ensures
        b == c.ok(n as nat),
{
    let mut i: usize = 0;
    while i < c.bases.len()
        invariant
            i <= c.bases@.len(),
            forall|k: int| 0 <= k < i ==> (#[trigger] c.bases@[k]).ok(n as nat),
        decreases c.bases@.len() - i,
    {
        if !check_span(&c.bases[i], n) {
            return false;
        }
        i += 1;
    }
    let mut j: usize = 0;
    while j < c.body.len()
        invariant
            j <= c.body@.len(),
            forall|k: int| 0 <= k < c.bases@.len() ==> (#[trigger] c.bases@[k]).ok(n as nat),
            forall|k: int| 0 <= k < j ==> (#[trigger] c.body@[k]).ok(n as nat),
        decreases c.body@.len() - j,
    {
        let ok = match &c.body[j] {
            ClassBodyStmt::FunctionDef(f) => check_function(f, n),
            ClassBodyStmt::AsyncFunctionDef(f) => check_function(f, n),
            ClassBodyStmt::Other => true,
        };
        if !ok {
            return false;
        }
        j += 1;
    }
    true
}

fn check_stmt(s: &StmtNode, n: usize) -> (b: bool)
    ensures
        b == s.ok(n as nat),
{
    match s {
        StmtNode::ClassDef(c) => check_class(c, n),
        StmtNode::FunctionDef(f) => check_function(f, n),
        StmtNode::AsyncFunctionDef(f) => check_function(f, n),
        StmtNode::Assign(a) => check_span(&a.value, n),
        StmtNode::AnnAssign(a) => check_span(&a.annotation, n) && check_opt_span(&a.value, n),
        StmtNode::Other => true,
    }
}

/// Checks at run time that every span of a supplied tree lies within a
/// text of `n` characters; a tree that fails this check is discarded
/// rather than stored.
pub fn check_ast(ast: &Vec<StmtNode>, n: usize) -> (b: bool)
    ensures
        b == ast_ok(ast@, n as nat),
{
    let mut i: usize = 0;
    while i < ast.len()
        invariant
            i <= ast@.len(),
            forall|k: int| 0 <= k < i ==> (#[trigger] ast@[k]).ok(n as nat),
        decreases ast@.len() - i,
    {
        if !check_stmt(&ast[i], n) {
            return false;
        }
        i += 1;
    }
    true
}

} // verus!
