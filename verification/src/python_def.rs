//! The definition model: value types for classes, functions and
//! attributes/arguments extracted from one source file, each able to render
//! its reconstructed declaration header and a query-aware "found" block.
//!
//! Matching is case-sensitive substring matching on the definition's name;
//! an empty query matches everything. Highlighting wraps every literal
//! occurrence of the query in square brackets; colored markup is a
//! presentation concern left to callers.

use vstd::prelude::*;
use vstd::string::*;

use crate::text::contains_str;
use crate::text::contains_sub;
use crate::text::replace_all_spec;
use crate::text::replace_all_str;

verus! {

/// The visibly marked copy that replaces a matched query substring.
pub open spec fn highlight_spec(q: Seq<char>) -> Seq<char> {
    "["@ + q + "]"@
}

/// The rendered text with every occurrence of a non-empty query marked.
pub open spec fn highlighted(line: Seq<char>, q: Seq<char>) -> Seq<char> {
    if q.len() > 0 {
        replace_all_spec(line, q, highlight_spec(q))
    } else {
        line
    }
}

/// The optional line that names the owning file, written before a matched
/// definition when the caller asks for it.
pub open spec fn file_name_line(
    include_file_name: Option<bool>,
    prefix: Seq<char>,
    path: Seq<char>,
) -> Seq<char> {
    if include_file_name == Some(true) {
        prefix + "["@ + path + "]\n"@
    } else {
        Seq::<char>::empty()
    }
}

/// The view of an optional indentation prefix.
pub open spec fn opt_prefix_view(p: Option<&String>) -> Seq<char> {
    match p {
        Some(s) => s@,
        None => Seq::<char>::empty(),
    }
}

/// `parts` joined with the separator `sep` between consecutive elements.
pub open spec fn join_strs(parts: Seq<Seq<char>>, sep: Seq<char>) -> Seq<char>
    decreases parts.len(),
{
    if parts.len() == 0 {
        Seq::<char>::empty()
    } else if parts.len() == 1 {
        parts[0]
    } else {
        join_strs(parts.drop_last(), sep) + sep + parts.last()
    }
}

/// A definition extracted from a Python source file: it names its kind,
/// reconstructs its declaration header, and renders a highlighted block
/// when a query matches it.
pub trait PythonDef {
    /// The rendered kind of this definition.
    spec fn type_name_spec(&self) -> Seq<char>;

    /// The reconstructed declaration header.
    spec fn def_code_spec(&self) -> Seq<char>;

    /// The block that `find` renders: empty when the query misses.
    spec fn find_spec(
        &self,
        query: Seq<char>,
        include_file_name: Option<bool>,
        prefix: Seq<char>,
    ) -> Seq<char>;

    fn get_type(&self) -> (r: String)
        ensures
            r@ == self.type_name_spec(),
    ;

    fn get_definition_code(&self) -> (r: String)
        ensures
            r@ == self.def_code_spec(),
    ;

    fn find(&self, query: &str, include_file_name: Option<bool>, print_prefix: Option<&String>) -> (r: String)
        ensures
            r@ == self.find_spec(query@, include_file_name, opt_prefix_view(print_prefix)),
    ;
}

/// The role an attribute plays in an argument list, which controls how its
/// header is rendered: `*name` for a variadic-positional argument, `**name`
/// for a variadic-keyword argument, `name: Type = Default` otherwise.
#[derive(Debug, Clone)]
pub enum ArgType {
    Not,
    Arg,
    Keyword,
    KeywordOnly,
    VarArg,
}

/// A variable assignment or a function argument, with verbatim fragments
/// for its declared type and default value.
#[derive(Debug, Clone)]
pub struct Attribute {
    pub path: String,
    pub name: String,
    pub type_: Option<String>,
    pub default: Option<String>,
    pub definition_code: String,
    pub arg_type: ArgType,
}

/// The declaration header of an attribute, reconstructed from its fragments.
pub open spec fn attr_code_spec(
    name: Seq<char>,
    type_: Option<Seq<char>>,
    default: Option<Seq<char>>,
    arg_type: ArgType,
) -> Seq<char> {
    match arg_type {
        ArgType::VarArg => "*"@ + name,
        ArgType::Keyword => "**"@ + name,
        _ => name + (match type_ {
            Some(t) => ": "@ + t,
            None => Seq::<char>::empty(),
        }) + (match default {
            Some(d) => " = "@ + d,
            None => Seq::<char>::empty(),
        }),
    }
}

impl Attribute {
    /// The view of the optional type fragment.
    pub open spec fn type_view(&self) -> Option<Seq<char>> {
        match self.type_ {
            Some(ref t) => Some(t@),
            None => None,
        }
    }

    /// The view of the optional default-value fragment.
    pub open spec fn default_view(&self) -> Option<Seq<char>> {
        match self.default {
            Some(ref d) => Some(d@),
            None => None,
        }
    }

    /// The stored definition code agrees with the other fields.
    pub open spec fn wf(&self) -> bool {
        self.definition_code@ == attr_code_spec(
            self.name@,
            self.type_view(),
            self.default_view(),
            self.arg_type,
        )
    }

    pub fn new(
        path: String,
        name: String,
        type_: Option<String>,
        default: Option<String>,
        arg_type: ArgType,
    ) -> (r: Attribute)
        ensures
            r.path@ == path@,
            r.name@ == name@,
            r.type_view() == (match type_ {
                Some(ref t) => Some::<Seq<char>>(t@),
                None => None::<Seq<char>>,
            }),
            r.default_view() == (match default {
                Some(ref d) => Some::<Seq<char>>(d@),
                None => None::<Seq<char>>,
            }),
            r.arg_type == arg_type,
            r.wf(),
    {
        let mut attribute = Attribute {
            path,
            name,
            type_,
            default,
            definition_code: String::new(),
            arg_type,
        };
        attribute.definition_code = attribute.get_definition_code();
        attribute
    }
}

impl PythonDef for Attribute {
    open spec fn type_name_spec(&self) -> Seq<char> {
        "ARGUMENT"@
    }

    open spec fn def_code_spec(&self) -> Seq<char> {
        attr_code_spec(self.name@, self.type_view(), self.default_view(), self.arg_type)
    }

    open spec fn find_spec(
        &self,
        query: Seq<char>,
        include_file_name: Option<bool>,
        prefix: Seq<char>,
    ) -> Seq<char> {
        let line = prefix + self.definition_code@;
        if contains_sub(self.name@, query) || query.len() == 0 {
            file_name_line(include_file_name, prefix, self.path@) + highlighted(line, query)
                + "\n"@
        } else {
            Seq::<char>::empty()
        }
    }

    fn get_type(&self) -> (r: String) {
        String::from_str("ARGUMENT")
    }

    fn get_definition_code(&self) -> (r: String) {
        match self.arg_type {
            ArgType::VarArg => {
                let mut code = String::from_str("*");
                code.append(self.name.as_str());
                code
            },
            ArgType::Keyword => {
                let mut code = String::from_str("**");
                code.append(self.name.as_str());
                code
            },
            _ => {
                let mut code = String::new();
                code.append(self.name.as_str());
                if let Some(ref t) = self.type_ {
                    code.append(": ");
                    code.append(t.as_str());
                }
                if let Some(ref d) = self.default {
                    code.append(" = ");
                    code.append(d.as_str());
                }
                code
            },
        }
    }

    fn find(&self, query: &str, include_file_name: Option<bool>, print_prefix: Option<&String>) -> (r: String) {
        let mut line = match print_prefix {
            Some(p) => p.clone(),
            None => String::new(),
        };
        line.append(self.definition_code.as_str());
        let shown = highlight_line(line.as_str(), query);
        let mut result = String::new();
        if contains_str(self.name.as_str(), query) || query.unicode_len() == 0 {
            push_file_name_line(&mut result, include_file_name, print_prefix, &self.path);
            result.append(shown.as_str());
            result.append("\n");
        }
        result
    }
}

/// A function or method definition, with its arguments in declaration
/// order and an optional verbatim return-type fragment.
#[derive(Debug, Clone)]
pub struct Method {
    pub path: String,
    pub name: String,
    pub return_type: Option<String>,
    pub arguments: Vec<Attribute>,
    pub definition_code: String,
    pub is_async: bool,
}

/// The declaration header of a function, reconstructed from its fragments.
pub open spec fn method_code_spec(
    name: Seq<char>,
    return_type: Option<Seq<char>>,
    arg_codes: Seq<Seq<char>>,
    is_async: bool,
) -> Seq<char> {
    (if is_async {
        "async def "@
    } else {
        "def "@
    }) + name + "("@ + join_strs(arg_codes, ", "@) + ")"@ + (match return_type {
        Some(t) => " -> "@ + t,
        None => Seq::<char>::empty(),
    }) + ":\n"@
}

impl Method {
    /// The view of the optional return-type fragment.
    pub open spec fn return_type_view(&self) -> Option<Seq<char>> {
        match self.return_type {
            Some(ref t) => Some(t@),
            None => None,
        }
    }

    /// The rendered headers of the arguments, in declaration order.
    pub open spec fn arg_codes(&self) -> Seq<Seq<char>> {
        self.arguments@.map_values(|a: Attribute| a.definition_code@)
    }

    /// The stored definition code agrees with the other fields, and every
    /// argument is itself well formed.
    pub open spec fn wf(&self) -> bool {
        &&& self.definition_code@ == method_code_spec(
            self.name@,
            self.return_type_view(),
            self.arg_codes(),
            self.is_async,
        )
        &&& forall|i: int| 0 <= i < self.arguments@.len() ==> (#[trigger] self.arguments@[i]).wf()
    }

    pub fn new(path: String, name: String, return_type: Option<String>, arguments: Vec<Attribute>)
        -> (r: Method)
        ensures
            r.path@ == path@,
            r.name@ == name@,
            r.return_type_view() == (match return_type {
                Some(ref t) => Some::<Seq<char>>(t@),
                None => None::<Seq<char>>,
            }),
            r.arguments == arguments,
            r.is_async == false,
            r.definition_code@ == method_code_spec(
                r.name@,
                r.return_type_view(),
                r.arg_codes(),
                false,
            ),
            (forall|i: int|
                0 <= i < arguments@.len() ==> (#[trigger] arguments@[i]).wf()) ==> r.wf(),
    {
        let mut method = Method {
            path,
            name,
            return_type,
            arguments,
            definition_code: String::new(),
            is_async: false,
        };
        method.definition_code = method.get_definition_code();
        method
    }

    pub fn set_async(&mut self, is_async: bool)
        ensures
            final(self).path == old(self).path,
            final(self).name == old(self).name,
            final(self).return_type == old(self).return_type,
            final(self).arguments == old(self).arguments,
            final(self).is_async == is_async,
            final(self).definition_code@ == method_code_spec(
                old(self).name@,
                old(self).return_type_view(),
                old(self).arg_codes(),
                is_async,
            ),
            old(self).wf() ==> final(self).wf(),
    {
        self.is_async = is_async;
        self.definition_code = self.get_definition_code();
    }
}

/// Joins the rendered headers of `args` with `", "`.
fn join_arg_codes(args: &Vec<Attribute>) -> (r: String)
    ensures
        r@ == join_strs(args@.map_values(|a: Attribute| a.definition_code@), ", "@),
{
    let ghost codes = args@.map_values(|a: Attribute| a.definition_code@);
    let mut r = String::new();
    let mut i: usize = 0;
    while i < args.len()
        invariant
            i <= args@.len(),
            codes == args@.map_values(|a: Attribute| a.definition_code@),
            r@ == join_strs(codes.take(i as int), ", "@),
        decreases args@.len() - i,
    {
        if i > 0 {
            r.append(", ");
        }
        r.append(args[i].definition_code.as_str());
        proof {
            assert(codes.take(i + 1).drop_last() =~= codes.take(i as int));
            assert(codes.take(i + 1).last() == args@[i as int].definition_code@);
        }
        i += 1;
    }
    assert(codes.take(args@.len() as int) =~= codes);
    r
}

impl PythonDef for Method {
    open spec fn type_name_spec(&self) -> Seq<char> {
        "METHOD"@
    }

    open spec fn def_code_spec(&self) -> Seq<char> {
        method_code_spec(self.name@, self.return_type_view(), self.arg_codes(), self.is_async)
    }

    open spec fn find_spec(
        &self,
        query: Seq<char>,
        include_file_name: Option<bool>,
        prefix: Seq<char>,
    ) -> Seq<char> {
        let line = prefix + self.def_code_spec();
        if contains_sub(self.name@, query) || query.len() == 0 {
            file_name_line(include_file_name, prefix, self.path@) + highlighted(line, query)
        } else {
            Seq::<char>::empty()
        }
    }

    fn get_type(&self) -> (r: String) {
        String::from_str("METHOD")
    }

    fn get_definition_code(&self) -> (r: String) {
        let mut code = if self.is_async {
            String::from_str("async def ")
        } else {
            String::from_str("def ")
        };
        code.append(self.name.as_str());
        code.append("(");
        let joined = join_arg_codes(&self.arguments);
        code.append(joined.as_str());
        code.append(")");
        if let Some(ref t) = self.return_type {
            code.append(" -> ");
            code.append(t.as_str());
        }
        code.append(":\n");
        code
    }

    fn find(&self, query: &str, include_file_name: Option<bool>, print_prefix: Option<&String>) -> (r: String) {
        let mut line = match print_prefix {
            Some(p) => p.clone(),
            None => String::new(),
        };
        let code = self.get_definition_code();
        line.append(code.as_str());
        let shown = highlight_line(line.as_str(), query);
        let mut result = String::new();
        if contains_str(self.name.as_str(), query) || query.unicode_len() == 0 {
            push_file_name_line(&mut result, include_file_name, print_prefix, &self.path);
            result.append(shown.as_str());
        }
        result
    }
}

/// A class definition: its methods in declaration order and the verbatim
/// fragments of its base-class expressions.
#[derive(Debug, Clone)]
pub struct Class {
    pub path: String,
    pub name: String,
    pub methods: Vec<Method>,
    pub base_classes: Vec<String>,
    pub definition_code: String,
}

/// The indented method lines that follow a class header.
pub open spec fn methods_code_spec(ms: Seq<Method>) -> Seq<char>
    decreases ms.len(),
{
    if ms.len() == 0 {
        Seq::<char>::empty()
    } else {
        methods_code_spec(ms.drop_last()) + "    "@ + ms.last().definition_code@ + "\n"@
    }
}

/// The first line of a class declaration.
pub open spec fn class_head_spec(name: Seq<char>, bases: Seq<Seq<char>>) -> Seq<char> {
    "class "@ + name + (if bases.len() > 0 {
        "("@ + join_strs(bases, ", "@) + ")"@
    } else {
        Seq::<char>::empty()
    }) + ":\n"@
}

/// The reconstructed declaration of a class: its header followed by the
/// headers of its methods, each indented one level.
pub open spec fn class_code_spec(
    name: Seq<char>,
    bases: Seq<Seq<char>>,
    methods: Seq<Method>,
) -> Seq<char> {
    class_head_spec(name, bases) + methods_code_spec(methods)
}

/// The `find` blocks of `ms`, concatenated in order.
pub open spec fn methods_find_spec(ms: Seq<Method>, query: Seq<char>, prefix: Seq<char>) -> Seq<
    char,
>
    decreases ms.len(),
{
    if ms.len() == 0 {
        Seq::<char>::empty()
    } else {
        methods_find_spec(ms.drop_last(), query, prefix) + ms.last().find_spec(
            query,
            Some(false),
            prefix,
        )
    }
}

impl Class {
    /// The views of the base-class fragments.
    pub open spec fn bases_view(&self) -> Seq<Seq<char>> {
        self.base_classes@.map_values(|s: String| s@)
    }

    /// The stored definition code agrees with the other fields, and every
    /// method is itself well formed.
    pub open spec fn wf(&self) -> bool {
        &&& self.definition_code@ == class_code_spec(
            self.name@,
            self.bases_view(),
            self.methods@,
        )
        &&& forall|i: int| 0 <= i < self.methods@.len() ==> (#[trigger] self.methods@[i]).wf()
    }

    pub fn new(path: String, name: String, methods: Vec<Method>, base_classes: Vec<String>) -> (r:
        Class)
        ensures
            r.path@ == path@,
            r.name@ == name@,
            r.methods == methods,
            r.base_classes == base_classes,
            r.definition_code@ == class_code_spec(r.name@, r.bases_view(), r.methods@),
            (forall|i: int| 0 <= i < methods@.len() ==> (#[trigger] methods@[i]).wf())
                ==> r.wf(),
    {
        let mut class = Class {
            path,
            name,
            methods,
            base_classes,
            definition_code: String::new(),
        };
        class.definition_code = class.get_definition_code();
        class
    }
}

/// Joins base-class fragments with `", "`.
fn join_string_vec(parts: &Vec<String>) -> (r: String)
    ensures
        r@ == join_strs(parts@.map_values(|s: String| s@), ", "@),
{
    let ghost views = parts@.map_values(|s: String| s@);
    let mut r = String::new();
    let mut i: usize = 0;
    while i < parts.len()
        invariant
            i <= parts@.len(),
            views == parts@.map_values(|s: String| s@),
            r@ == join_strs(views.take(i as int), ", "@),
        decreases parts@.len() - i,
    {
        if i > 0 {
            r.append(", ");
        }
        r.append(parts[i].as_str());
        proof {
            assert(views.take(i + 1).drop_last() =~= views.take(i as int));
            assert(views.take(i + 1).last() == parts@[i as int]@);
        }
        i += 1;
    }
    assert(views.take(parts@.len() as int) =~= views);
    r
}

impl PythonDef for Class {
    open spec fn type_name_spec(&self) -> Seq<char> {
        "CLASS"@
    }

    open spec fn def_code_spec(&self) -> Seq<char> {
        class_code_spec(self.name@, self.bases_view(), self.methods@)
    }

    open spec fn find_spec(
        &self,
        query: Seq<char>,
        include_file_name: Option<bool>,
        prefix: Seq<char>,
    ) -> Seq<char> {
        let head = prefix + class_head_spec(self.name@, self.bases_view());
        let body = methods_find_spec(self.methods@, query, prefix + "    "@);
        if contains_sub(self.name@, query) || body.len() > 0 || query.len() == 0 {
            file_name_line(include_file_name, prefix, self.path@) + highlighted(head, query)
                + body
        } else {
            Seq::<char>::empty()
        }
    }

    fn get_type(&self) -> (r: String) {
        String::from_str("CLASS")
    }

    fn get_definition_code(&self) -> (r: String) {
        let mut code = String::from_str("class ");
        code.append(self.name.as_str());
        if self.base_classes.len() > 0 {
            code.append("(");
            let joined = join_string_vec(&self.base_classes);
            code.append(joined.as_str());
            code.append(")");
        }
        code.append(":\n");
        let ghost head = class_head_spec(self.name@, self.bases_view());
        assert(code@ == head);
        let mut i: usize = 0;
        while i < self.methods.len()
            invariant
                i <= self.methods@.len(),
                code@ == head + methods_code_spec(self.methods@.take(i as int)),
            decreases self.methods@.len() - i,
        {
            code.append("    ");
            code.append(self.methods[i].definition_code.as_str());
            code.append("\n");
            proof {
                assert(self.methods@.take(i + 1).drop_last() =~= self.methods@.take(i as int));
            }
            i += 1;
        }
        assert(self.methods@.take(self.methods@.len() as int) =~= self.methods@);
        code
    }

    fn find(&self, query: &str, include_file_name: Option<bool>, print_prefix: Option<&String>) -> (r: String) {
        let mut head = match print_prefix {
            Some(p) => p.clone(),
            None => String::new(),
        };
        head.append("class ");
        head.append(self.name.as_str());
        if self.base_classes.len() > 0 {
            head.append("(");
            let joined = join_string_vec(&self.base_classes);
            head.append(joined.as_str());
            head.append(")");
        }
        head.append(":\n");
        assert(head@ =~= opt_prefix_view(print_prefix) + class_head_spec(
            self.name@,
            self.bases_view(),
        ));
        let mut sub_prefix = match print_prefix {
            Some(p) => p.clone(),
            None => String::new(),
        };
        sub_prefix.append("    ");
        let mut body = String::new();
        let mut i: usize = 0;
        while i < self.methods.len()
            invariant
                i <= self.methods@.len(),
                sub_prefix@ == opt_prefix_view(print_prefix) + "    "@,
                body@ == methods_find_spec(
                    self.methods@.take(i as int),
                    query@,
                    sub_prefix@,
                ),
        decreases self.methods@.len() - i,
        {
            let block = self.methods[i].find(query, Some(false), Some(&sub_prefix));
            body.append(block.as_str());
            proof {
                assert(self.methods@.take(i + 1).drop_last() =~= self.methods@.take(i as int));
            }
            i += 1;
        }
        assert(self.methods@.take(self.methods@.len() as int) =~= self.methods@);
        let shown = highlight_line(head.as_str(), query);
        let mut result = String::new();
        if contains_str(self.name.as_str(), query) || body.unicode_len() > 0
            || query.unicode_len() == 0 {
            push_file_name_line(&mut result, include_file_name, print_prefix, &self.path);
            result.append(shown.as_str());
            result.append(body.as_str());
        }
        result
    }
}

/// A highlighted non-empty line stays non-empty.
proof fn lemma_highlighted_nonempty(line: Seq<char>, q: Seq<char>)
    requires
        line.len() > 0,
    ensures
        highlighted(line, q).len() > 0,
{
    if q.len() > 0 {
        reveal_strlit("[");
        reveal_strlit("]");
        crate::text::lemma_replace_all_nonempty(line, q, highlight_spec(q));
    }
}

/// A variable's `find` block is non-empty when its name contains the
/// query or the query is empty.
pub proof fn lemma_attr_find_nonempty(
    a: Attribute,
    q: Seq<char>,
    incl: Option<bool>,
    prefix: Seq<char>,
)
    requires
        contains_sub(a.name@, q) || q.len() == 0,
    ensures
        a.find_spec(q, incl, prefix).len() > 0,
{
    reveal_strlit("\n");
}

/// A class's `find` block is non-empty when its name contains the query
/// or the query is empty.
pub proof fn lemma_class_find_empty_nonempty(
    c: Class,
    q: Seq<char>,
    incl: Option<bool>,
    prefix: Seq<char>,
)
    requires
        contains_sub(c.name@, q) || q.len() == 0,
    ensures
        c.find_spec(q, incl, prefix).len() > 0,
{
    reveal_strlit(":\n");
    let head = prefix + class_head_spec(c.name@, c.bases_view());
    assert(head.len() > 0);
    lemma_highlighted_nonempty(head, q);
}

/// A method's `find` block is non-empty when its name contains the query
/// or the query is empty.
pub proof fn lemma_method_find_nonempty(
    m: Method,
    q: Seq<char>,
    incl: Option<bool>,
    prefix: Seq<char>,
)
    requires
        contains_sub(m.name@, q) || q.len() == 0,
    ensures
        m.find_spec(q, incl, prefix).len() > 0,
{
    reveal_strlit(":\n");
    let line = prefix + m.def_code_spec();
    assert(line.len() > 0);
    lemma_highlighted_nonempty(line, q);
}

/// The concatenated method blocks are at least as long as any single
/// method's block.
proof fn lemma_methods_find_ge(ms: Seq<Method>, q: Seq<char>, prefix: Seq<char>, i: int)
    requires
        0 <= i < ms.len(),
    ensures
        methods_find_spec(ms, q, prefix).len() >= ms[i].find_spec(q, Some(false), prefix).len(),
    decreases ms.len(),
{
    if i < ms.len() - 1 {
        lemma_methods_find_ge(ms.drop_last(), q, prefix, i);
        assert(ms.drop_last()[i] == ms[i]);
    }
}

/// A class's `find` block is non-empty whenever one of its methods
/// matches the query, even when the class's own name does not contain it.
pub proof fn lemma_class_find_method_match(
    c: Class,
    q: Seq<char>,
    incl: Option<bool>,
    prefix: Seq<char>,
    i: int,
)
    requires
        0 <= i < c.methods@.len(),
        contains_sub(c.methods@[i].name@, q),
    ensures
        c.find_spec(q, incl, prefix).len() > 0,
{
    let subp = prefix + "    "@;
    lemma_method_find_nonempty(c.methods@[i], q, Some(false), subp);
    lemma_methods_find_ge(c.methods@, q, subp, i);
}

/// Renders `line` with every occurrence of a non-empty `query` marked.
fn highlight_line(line: &str, query: &str) -> (r: String)
    ensures
        r@ == highlighted(line@, query@),
{
    if query.unicode_len() > 0 {
        let mut marked = String::from_str("[");
        marked.append(query);
        marked.append("]");
        replace_all_str(line, query, marked.as_str())
    } else {
        line.to_owned()
    }
}

/// Appends the owning-file line when the caller asked for it.
fn push_file_name_line(
    result: &mut String,
    include_file_name: Option<bool>,
    print_prefix: Option<&String>,
    path: &String,
)
    ensures
        final(result)@ == old(result)@ + file_name_line(
            include_file_name,
            opt_prefix_view(print_prefix),
            path@,
        ),
{
    let show = match include_file_name {
        Some(b) => b,
        None => false,
    };
    if show {
        if let Some(p) = print_prefix {
            result.append(p.as_str());
        }
        result.append("[");
        result.append(path.as_str());
        result.append("]\n");
    }
}

} // verus!
