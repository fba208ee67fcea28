//! The type-expression model: a closed set of node kinds describing what a
//! type looks like, plus the registry of named definitions.
//!
//! The whole graph is plain data. Construction cannot fail; the one semantic
//! invariant (a reference to a definition must supply as many generic
//! arguments as the definition declares parameters) is captured by the
//! well-formedness predicates below and checked executably by
//! [`TypeRegistry::check_wf`].

use vstd::prelude::*;

verus! {

/// Documentation text attached to a node, one entry per source line.
///
/// The lines are emitted verbatim as a block comment in front of the node;
/// keeping comment delimiters out of them is the caller's responsibility.
#[derive(Debug, Clone)]
pub struct Docs(pub Vec<String>);

/// An identifier of the target language, stored verbatim.
#[derive(Debug, Clone)]
pub struct Ident(pub String);

/// A fixed text value rendered as a string-literal type.
#[derive(Debug, Clone)]
pub struct TypeString {
    pub docs: Option<Docs>,
    pub value: String,
}

/// A direct named reference: namespace path, identifier and generic
/// arguments are rendered literally, without going through the registry.
#[derive(Debug)]
pub struct TypeName {
    pub path: Vec<Ident>,
    pub name: Ident,
    pub generic_args: Vec<TypeExpr>,
}

/// An ordered, fixed-length sequence of member expressions.
#[derive(Debug)]
pub struct Tuple {
    pub docs: Option<Docs>,
    pub elements: Vec<TypeExpr>,
}

/// An ordered list of named fields.
#[derive(Debug)]
pub struct Object {
    pub docs: Option<Docs>,
    pub fields: Vec<ObjectField>,
}

/// One field of an [`Object`]: a literal field name, an optionality marker
/// and the field's type.
#[derive(Debug)]
pub struct ObjectField {
    pub docs: Option<Docs>,
    pub name: TypeString,
    pub optional: bool,
    pub ty: TypeExpr,
}

/// A homogeneous variable-length sequence of one item type.
#[derive(Debug)]
pub struct Array {
    pub docs: Option<Docs>,
    pub item: Box<TypeExpr>,
}

/// An ordered list of alternatives. An empty union denotes the uninhabited
/// type.
#[derive(Debug)]
pub struct Union {
    pub docs: Option<Docs>,
    pub members: Vec<TypeExpr>,
}

/// An ordered list of combined constraints. An empty intersection denotes
/// the universal type.
#[derive(Debug)]
pub struct Intersection {
    pub docs: Option<Docs>,
    pub members: Vec<TypeExpr>,
}

/// A reference to another type description: either an externally supplied
/// ("native") rendering, or a named definition held by a [`TypeRegistry`].
#[derive(Debug)]
pub enum TypeInfo {
    Native(NativeTypeInfo),
    Custom(CustomTypeInfo),
}

/// A native-backed reference: the expression is supplied by the caller and
/// delegated to verbatim. It is the escape hatch for target-language
/// built-ins and primitives.
#[derive(Debug)]
pub struct NativeTypeInfo {
    pub expr: Box<TypeExpr>,
}

/// A reference to a named definition, by its handle in the registry, plus
/// the generic argument expressions supplied at the use site.
#[derive(Debug)]
pub struct CustomTypeInfo {
    pub def: usize,
    pub generic_args: Vec<TypeExpr>,
}

/// A type expression: the closed sum of all node kinds.
#[derive(Debug)]
pub enum TypeExpr {
    Ref(TypeInfo),
    TypeName(TypeName),
    String(TypeString),
    Tuple(Tuple),
    Object(Object),
    Array(Array),
    Union(Union),
    Intersection(Intersection),
}

/// A named, top-level type definition: documentation, a namespace path
/// (empty means top level), a name, declared generic parameters and a body.
///
/// Definitions have a stable identity: their handle (index) in the registry.
/// Two definitions with identical bodies are still distinct entries.
#[derive(Debug)]
pub struct TypeDefinition {
    pub docs: Option<Docs>,
    pub path: Vec<Ident>,
    pub name: Ident,
    pub generic_vars: Vec<Ident>,
    pub def: TypeExpr,
}

/// The append-only table of named definitions, referenced by index.
///
/// The registry is built once, before any emission call, and read-only
/// afterwards. Uniqueness of the full path-qualified names is the builder's
/// responsibility; references are always emitted fully qualified, so two
/// definitions may share a local name as long as their paths differ.
#[derive(Debug)]
pub struct TypeRegistry {
    pub defs: Vec<TypeDefinition>,
}

/// A well-formed expression only references definitions that exist in the
/// registry, and supplies every referenced definition exactly as many
/// generic arguments as it declares parameters.
pub open spec fn wf_expr(reg: TypeRegistry, e: TypeExpr) -> bool
    decreases e,
{
    match e {
        TypeExpr::Ref(info) => wf_info(reg, info),
        TypeExpr::TypeName(tn) => wf_exprs(reg, tn.generic_args@),
        TypeExpr::String(_) => true,
        TypeExpr::Tuple(t) => wf_exprs(reg, t.elements@),
        TypeExpr::Object(o) => wf_fields(reg, o.fields@),
        TypeExpr::Array(a) => wf_expr(reg, *a.item),
        TypeExpr::Union(u) => wf_exprs(reg, u.members@),
        TypeExpr::Intersection(i) => wf_exprs(reg, i.members@),
    }
}

/// Well-formedness of a reference node; see [`wf_expr`].
pub open spec fn wf_info(reg: TypeRegistry, info: TypeInfo) -> bool
    decreases info,
{
    match info {
        TypeInfo::Native(n) => wf_expr(reg, *n.expr),
        TypeInfo::Custom(c) => {
            &&& c.def < reg.defs@.len()
            &&& c.generic_args@.len() == reg.defs@[c.def as int].generic_vars@.len()
            &&& wf_exprs(reg, c.generic_args@)
        },
    }
}

/// Every expression of the sequence is well-formed.
pub open spec fn wf_exprs(reg: TypeRegistry, es: Seq<TypeExpr>) -> bool
    decreases es,
{
    forall|i: int| 0 <= i < es.len() ==> wf_expr(reg, #[trigger] es[i])
}

/// Every field's type expression is well-formed.
pub open spec fn wf_fields(reg: TypeRegistry, fs: Seq<ObjectField>) -> bool
    decreases fs,
{
    forall|i: int| 0 <= i < fs.len() ==> wf_expr(reg, #[trigger] fs[i].ty)
}

impl TypeRegistry {
    /// Every definition body in the registry is well-formed.
    pub open spec fn wf(self) -> bool {
        forall|i: int| 0 <= i < self.defs@.len() ==> wf_expr(self, #[trigger] self.defs@[i].def)
    }

    /// An empty registry.
    pub fn new() -> (r: Self)
        ensures
            r.defs@ == Seq::<TypeDefinition>::empty(),
    {
        TypeRegistry { defs: Vec::new() }
    }

    /// Appends a definition and returns its handle. Handles of earlier
    /// definitions are stable: the table is append-only.
    pub fn add_def(&mut self, d: TypeDefinition) -> (i: usize)
        ensures
            final(self).defs@ == old(self).defs@.push(d),
            i == old(self).defs@.len(),
    {
        let i: usize = self.defs.len();
        self.defs.push(d);
        i
    }
}

fn check_wf_expr(reg: &TypeRegistry, e: &TypeExpr) -> (b: bool)
    ensures
        b == wf_expr(*reg, *e),
    decreases *e, 0int,
{
    match e {
        TypeExpr::Ref(info) => check_wf_info(reg, info),
        TypeExpr::TypeName(tn) => {
            proof {
                assert(tn.generic_args@.skip(0) =~= tn.generic_args@);
            }
            check_wf_exprs(reg, &tn.generic_args, 0)
        },
        TypeExpr::String(_) => true,
        TypeExpr::Tuple(t) => {
            proof {
                assert(t.elements@.skip(0) =~= t.elements@);
            }
            check_wf_exprs(reg, &t.elements, 0)
        },
        TypeExpr::Object(o) => {
            proof {
                assert(o.fields@.skip(0) =~= o.fields@);
            }
            check_wf_fields(reg, &o.fields, 0)
        },
        TypeExpr::Array(a) => check_wf_expr(reg, &a.item),
        TypeExpr::Union(u) => {
            proof {
                assert(u.members@.skip(0) =~= u.members@);
            }
            check_wf_exprs(reg, &u.members, 0)
        },
        TypeExpr::Intersection(i) => {
            proof {
                assert(i.members@.skip(0) =~= i.members@);
            }
            check_wf_exprs(reg, &i.members, 0)
        },
    }
}

fn check_wf_info(reg: &TypeRegistry, info: &TypeInfo) -> (b: bool)
    ensures
        b == wf_info(*reg, *info),
    decreases *info, 1int,
{
    match info {
        TypeInfo::Native(n) => check_wf_expr(reg, &n.expr),
        TypeInfo::Custom(c) => {
            if c.def >= reg.defs.len() {
                return false;
            }
            if c.generic_args.len() != reg.defs[c.def].generic_vars.len() {
                return false;
            }
            proof {
                assert(c.generic_args@.skip(0) =~= c.generic_args@);
            }
            check_wf_exprs(reg, &c.generic_args, 0)
        },
    }
}

fn check_wf_exprs(reg: &TypeRegistry, es: &Vec<TypeExpr>, i: usize) -> (b: bool)
    requires
        i <= es@.len(),
    ensures
        b == wf_exprs(*reg, es@.skip(i as int)),
    decreases es@.skip(i as int), 0int,
{
    let ghost tail = es@.skip(i as int);
    if i < es.len() {
        proof {
            assert(tail[0] == es@[i as int]);
            assert(tail.drop_first() == tail.subrange(1, tail.len() as int));
            assert(tail.drop_first() =~= es@.skip(i as int + 1));
        }
        let head_ok = check_wf_expr(reg, &es[i]);
        if !head_ok {
            return false;
        }
        let rest_ok = check_wf_exprs(reg, es, i + 1);
        proof {
            if rest_ok {
                assert forall|k: int| 0 <= k < tail.len() implies wf_expr(
                    *reg,
                    #[trigger] tail[k],
                ) by {
                    if k > 0 {
                        assert(tail[k] == tail.drop_first()[k - 1]);
                    }
                }
            } else {
                assert(!wf_exprs(*reg, tail)) by {
                    if wf_exprs(*reg, tail) {
                        assert forall|k: int| 0 <= k < tail.drop_first().len() implies wf_expr(
                            *reg,
                            #[trigger] tail.drop_first()[k],
                        ) by {
                            assert(tail.drop_first()[k] == tail[k + 1]);
                        }
                    }
                }
            }
        }
        rest_ok
    } else {
        proof {
            assert(tail.len() == 0);
        }
        true
    }
}

fn check_wf_fields(reg: &TypeRegistry, fs: &Vec<ObjectField>, i: usize) -> (b: bool)
    requires
        i <= fs@.len(),
    ensures
        b == wf_fields(*reg, fs@.skip(i as int)),
    decreases fs@.skip(i as int), 3int,
{
    let ghost tail = fs@.skip(i as int);
    if i < fs.len() {
        proof {
            assert(tail[0] == fs@[i as int]);
            assert(tail.drop_first() == tail.subrange(1, tail.len() as int));
            assert(tail.drop_first() =~= fs@.skip(i as int + 1));
        }
        let head_ok = check_wf_expr(reg, &fs[i].ty);
        if !head_ok {
            return false;
        }
        let rest_ok = check_wf_fields(reg, fs, i + 1);
        proof {
            if rest_ok {
                assert forall|k: int| 0 <= k < tail.len() implies wf_expr(
                    *reg,
                    #[trigger] tail[k].ty,
                ) by {
                    if k > 0 {
                        assert(tail[k] == tail.drop_first()[k - 1]);
                    }
                }
            } else {
                assert(!wf_fields(*reg, tail)) by {
                    if wf_fields(*reg, tail) {
                        assert forall|k: int| 0 <= k < tail.drop_first().len() implies wf_expr(
                            *reg,
                            #[trigger] tail.drop_first()[k].ty,
                        ) by {
                            assert(tail.drop_first()[k] == tail[k + 1]);
                        }
                    }
                }
            }
        }
        rest_ok
    } else {
        proof {
            assert(tail.len() == 0);
        }
        true
    }
}

impl TypeRegistry {
    /// Checks the registry's single semantic invariant executably: every
    /// reference made by any definition body points into the registry and
    /// supplies exactly as many generic arguments as the referenced
    /// definition declares parameters. Inconsistent arity is a construction
    /// mistake of the type graph, and this test is how a caller rejects such
    /// a graph before emission.
    pub fn check_wf(&self) -> (b: bool)
        ensures
            b == self.wf(),
    {
        let mut i: usize = 0;
        while i < self.defs.len()
            invariant
                i <= self.defs@.len(),
                forall|j: int| 0 <= j < i ==> wf_expr(*self, #[trigger] self.defs@[j].def),
            decreases self.defs@.len() - i,
        {
            if !check_wf_expr(self, &self.defs[i].def) {
                return false;
            }
            i += 1;
        }
        true
    }

    /// Checks that a root description is well-formed with respect to this
    /// registry; see [`TypeRegistry::check_wf`].
    pub fn check_wf_root(&self, info: &TypeInfo) -> (b: bool)
        ensures
            b == wf_info(*self, *info),
    {
        check_wf_info(self, info)
    }
}

impl TypeName {
    /// A direct reference to a bare identifier: empty path, no generics.
    pub fn ident(ident: Ident) -> (r: Self)
        ensures
            r.path@ == Seq::<Ident>::empty(),
            r.name == ident,
            r.generic_args@ == Seq::<TypeExpr>::empty(),
    {
        TypeName { path: Vec::new(), name: ident, generic_args: Vec::new() }
    }
}

impl TypeExpr {
    /// The expression form of [`TypeName::ident`].
    pub fn ident(ident: Ident) -> (r: Self)
        ensures
            r matches TypeExpr::TypeName(tn) && tn.path@ == Seq::<Ident>::empty() && tn.name
                == ident && tn.generic_args@ == Seq::<TypeExpr>::empty(),
    {
        TypeExpr::TypeName(TypeName::ident(ident))
    }
}

} // verus!
