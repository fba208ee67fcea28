//! The emission engine: renders type expressions and definitions to
//! TypeScript text, and assembles whole definition files.
//!
//! Every rendering function is specified exactly by a `render_*`
//! specification function over sequences of characters, so the text a call
//! appends to the sink is pinned down completely. References to definitions
//! held by the registry are always rendered with their full
//! root-namespace-qualified dotted path; an unqualified or relatively
//! qualified name is never emitted, which keeps same-named definitions in
//! different namespaces unambiguous.

use crate::resolve::{dfs_info, reachable_info, resolve_info};
use crate::resolve::{lemma_closure_bound, lemma_closure_exact};
use crate::type_expr::{
    wf_expr, wf_exprs, wf_fields, wf_info, Docs, Ident, ObjectField, TypeExpr, TypeInfo, TypeName,
    TypeRegistry, TypeString,
};
use vstd::prelude::*;
use vstd::string::StrSliceExecFns;
use vstd::string::StringExecFns;

verus! {

/// A type with a TypeScript type definition.
///
/// Implementations describe the shape a value of the type takes in the
/// generic JSON-style interchange encoding. They are supplied from outside
/// the emission core: an implementation registers whatever named definitions
/// the type needs and hands back the description of the type itself.
pub trait TypeDef {
    /// Registers the named definitions this type depends on into `reg` and
    /// returns the description of this type's own shape, referencing those
    /// definitions by the handles that registration produced.
    fn register(reg: &mut TypeRegistry) -> TypeInfo;
}

/// Options for customizing the output of [`write_definition_file`].
#[derive(Debug, Clone, PartialEq, Eq)]
pub struct DefinitionFileOptions {
    /// Text emitted verbatim at the start of the file, followed by a line
    /// break. `None` emits no header at all.
    pub header: Option<String>,
    /// The name of the root namespace all definitions are placed under, and
    /// the name of the module's default export.
    pub root_namespace: String,
}

/// Statistics about one emission run.
#[derive(Debug, Clone, PartialEq, Eq, Structural)]
pub struct Stats {
    /// The number of unique type definitions emitted.
    pub type_definitions: usize,
}

/// The mutable state of one emission run: the output text accumulated so
/// far, the options of the run, and the running statistics. One context
/// serves one run and is discarded afterwards.
#[derive(Debug)]
pub struct EmitCtx {
    pub out: String,
    pub options: DefinitionFileOptions,
    pub stats: Stats,
}

/// One hexadecimal digit, lower case.
pub open spec fn hex_digit(n: u8) -> char {
    if n == 0 {
        '0'
    } else if n == 1 {
        '1'
    } else if n == 2 {
        '2'
    } else if n == 3 {
        '3'
    } else if n == 4 {
        '4'
    } else if n == 5 {
        '5'
    } else if n == 6 {
        '6'
    } else if n == 7 {
        '7'
    } else if n == 8 {
        '8'
    } else if n == 9 {
        '9'
    } else if n == 10 {
        'a'
    } else if n == 11 {
        'b'
    } else if n == 12 {
        'c'
    } else if n == 13 {
        'd'
    } else if n == 14 {
        'e'
    } else {
        'f'
    }
}

/// The escape of one character inside a double-quoted TypeScript string
/// literal: quote, backslash and the common control characters use the
/// two-character escapes, any other control character a `\u00..` escape,
/// and everything else stands for itself.
pub open spec fn escape_char(c: char) -> Seq<char> {
    if c == '"' {
        seq!['\\', '"']
    } else if c == '\\' {
        seq!['\\', '\\']
    } else if c == '\n' {
        seq!['\\', 'n']
    } else if c == '\r' {
        seq!['\\', 'r']
    } else if c == '\t' {
        seq!['\\', 't']
    } else if (c as u32) < 0x20 {
        seq![
            '\\',
            'u',
            '0',
            '0',
            hex_digit(((c as u32) / 16) as u8),
            hex_digit(((c as u32) % 16) as u8),
        ]
    } else {
        seq![c]
    }
}

/// A whole character sequence, escaped character by character.
pub open spec fn escaped(s: Seq<char>) -> Seq<char>
    decreases s.len(),
{
    if s.len() == 0 {
        Seq::empty()
    } else {
        escape_char(s.first()) + escaped(s.drop_first())
    }
}

/// A double-quoted, escaped string literal.
pub open spec fn render_str_lit(s: Seq<char>) -> Seq<char> {
    seq!['"'] + escaped(s) + seq!['"']
}

/// The comment lines of a documentation block, one per source line.
pub open spec fn docs_lines(ls: Seq<String>) -> Seq<char>
    decreases ls.len(),
{
    if ls.len() == 0 {
        Seq::empty()
    } else {
        " * "@ + ls.first()@ + "\n"@ + docs_lines(ls.drop_first())
    }
}

/// An optional documentation block: a block comment in front of the node,
/// with the text carried over verbatim.
pub open spec fn render_docs(d: Option<Docs>) -> Seq<char> {
    match d {
        Option::None => Seq::empty(),
        Option::Some(ds) => "\n/**\n"@ + docs_lines(ds.0@) + " */\n"@,
    }
}

/// A string-literal type: its documentation, then the quoted literal.
pub open spec fn render_type_string(ts: TypeString) -> Seq<char> {
    render_docs(ts.docs) + render_str_lit(ts.value@)
}

/// The `a.b.` prefix formed by the identifiers of a namespace path, each
/// followed by a dot.
pub open spec fn path_prefix(ids: Seq<Ident>) -> Seq<char>
    decreases ids.len(),
{
    if ids.len() == 0 {
        Seq::empty()
    } else {
        ids.first().0@ + "."@ + path_prefix(ids.drop_first())
    }
}

/// Identifiers joined by a separator.
pub open spec fn ident_joined(ids: Seq<Ident>, sep: Seq<char>) -> Seq<char>
    decreases ids.len(),
{
    if ids.len() == 0 {
        Seq::empty()
    } else if ids.len() == 1 {
        ids.first().0@
    } else {
        ids.first().0@ + sep + ident_joined(ids.drop_first(), sep)
    }
}

/// The text rendered for one type expression, given the root namespace
/// name. A reference to a definition renders as the full dotted path:
/// root namespace, namespace path, name — never as a bare name.
pub open spec fn render_expr(reg: TypeRegistry, e: TypeExpr, ns: Seq<char>) -> Seq<char>
    decreases e, 0int,
{
    match e {
        TypeExpr::Ref(info) => render_info(reg, info, ns),
        TypeExpr::TypeName(tn) => path_prefix(tn.path@) + tn.name.0@ + render_generic_args(
            reg,
            tn.generic_args@,
            ns,
        ),
        TypeExpr::String(ts) => render_type_string(ts),
        TypeExpr::Tuple(t) => render_docs(t.docs) + "["@ + render_joined(
            reg,
            t.elements@,
            ns,
            ","@,
        ) + "]"@,
        TypeExpr::Object(o) => render_docs(o.docs) + "{"@ + render_fields(reg, o.fields@, ns)
            + "}"@,
        TypeExpr::Array(a) => render_docs(a.docs) + "("@ + render_expr(reg, *a.item, ns) + ")[]"@,
        TypeExpr::Union(u) => render_docs(u.docs) + if u.members@.len() == 0 {
            "never"@
        } else {
            "("@ + render_joined(reg, u.members@, ns, "|"@) + ")"@
        },
        TypeExpr::Intersection(i) => render_docs(i.docs) + if i.members@.len() == 0 {
            "any"@
        } else {
            "("@ + render_joined(reg, i.members@, ns, "&"@) + ")"@
        },
    }
}

/// The text rendered for a reference node. A native reference delegates to
/// the caller-supplied expression verbatim; a reference to a definition is
/// rendered fully qualified.
pub open spec fn render_info(reg: TypeRegistry, info: TypeInfo, ns: Seq<char>) -> Seq<char>
    decreases info, 0int,
{
    match info {
        TypeInfo::Native(n) => render_expr(reg, *n.expr, ns),
        TypeInfo::Custom(c) => ns + "."@ + path_prefix(reg.defs@[c.def as int].path@)
            + reg.defs@[c.def as int].name.0@ + render_generic_args(reg, c.generic_args@, ns),
    }
}

/// The angle-bracketed generic argument list, or nothing when there are no
/// arguments.
pub open spec fn render_generic_args(reg: TypeRegistry, args: Seq<TypeExpr>, ns: Seq<char>) -> Seq<
    char,
>
    decreases args, 1int,
{
    if args.len() == 0 {
        Seq::empty()
    } else {
        "<"@ + render_joined(reg, args, ns, ","@) + ">"@
    }
}

/// Expressions joined by a separator.
pub open spec fn render_joined(
    reg: TypeRegistry,
    es: Seq<TypeExpr>,
    ns: Seq<char>,
    sep: Seq<char>,
) -> Seq<char>
    decreases es, 0int,
{
    if es.len() == 0 {
        Seq::empty()
    } else {
        proof {
            assert(es.drop_first() == es.subrange(1, es.len() as int));
        }
        if es.len() == 1 {
            render_expr(reg, es.first(), ns)
        } else {
            render_expr(reg, es.first(), ns) + sep + render_joined(reg, es.drop_first(), ns, sep)
        }
    }
}

/// One object field: documentation, the field-name literal, `?` when the
/// field is optional, a colon, the field's type, a semicolon.
pub open spec fn render_field(reg: TypeRegistry, f: ObjectField, ns: Seq<char>) -> Seq<char>
    decreases f, 1int,
{
    render_docs(f.docs) + render_type_string(f.name) + (if f.optional {
        "?"@
    } else {
        Seq::<char>::empty()
    }) + ":"@ + render_expr(reg, f.ty, ns) + ";"@
}

/// The fields of an object, in order.
pub open spec fn render_fields(reg: TypeRegistry, fs: Seq<ObjectField>, ns: Seq<char>) -> Seq<char>
    decreases fs, 2int,
{
    if fs.len() == 0 {
        Seq::empty()
    } else {
        proof {
            assert(fs.drop_first() == fs.subrange(1, fs.len() as int));
        }
        render_field(reg, fs.first(), ns) + render_fields(reg, fs.drop_first(), ns)
    }
}

/// One emitted definition: documentation, the namespace wrapper when the
/// path is non-empty, the exported type alias with its declared generic
/// parameters, the body, and a closing line break.
pub open spec fn render_def(reg: TypeRegistry, i: int, ns: Seq<char>) -> Seq<char> {
    let d = reg.defs@[i];
    render_docs(d.docs) + (if d.path@.len() > 0 {
        "export namespace "@ + ident_joined(d.path@, "."@) + "{"@
    } else {
        Seq::<char>::empty()
    }) + "export type "@ + d.name.0@ + (if d.generic_vars@.len() > 0 {
        "<"@ + ident_joined(d.generic_vars@, ","@) + ">"@
    } else {
        Seq::<char>::empty()
    }) + "="@ + render_expr(reg, d.def, ns) + ";"@ + (if d.path@.len() > 0 {
        "}"@
    } else {
        Seq::<char>::empty()
    }) + "\n"@
}

/// The definitions named by a list of handles, rendered in order.
pub open spec fn render_defs(reg: TypeRegistry, idxs: Seq<usize>, ns: Seq<char>) -> Seq<char>
    decreases idxs.len(),
{
    if idxs.len() == 0 {
        Seq::empty()
    } else {
        render_def(reg, idxs.first() as int, ns) + render_defs(reg, idxs.drop_first(), ns)
    }
}

/// One whole definition file for the root description `info`: the optional
/// header, the default export, the root namespace block holding every
/// definition of the reference closure exactly once in first-discovery
/// order, and the closing brace.
pub open spec fn render_module(
    reg: TypeRegistry,
    info: TypeInfo,
    options: DefinitionFileOptions,
) -> Seq<char> {
    let ns = options.root_namespace@;
    (match options.header {
        Option::Some(h) => h@ + "\n"@,
        Option::None => Seq::<char>::empty(),
    }) + "export default "@ + ns + ";\n"@ + "export namespace "@ + ns + "{\n"@ + render_defs(
        reg,
        dfs_info(reg, info, Set::empty()),
        ns,
    ) + "}\n"@
}

/// Relies on `String::push`: appends exactly the one character.
#[verifier::external_body]
fn push_char(s: &mut String, c: char)
    ensures
        final(s)@ == old(s)@ + seq![c],
{
    s.push(c);
}

fn hex_digit_exec(n: u8) -> (c: char)
    requires
        n < 16,
    ensures
        c == hex_digit(n),
{
    if n == 0 {
        '0'
    } else if n == 1 {
        '1'
    } else if n == 2 {
        '2'
    } else if n == 3 {
        '3'
    } else if n == 4 {
        '4'
    } else if n == 5 {
        '5'
    } else if n == 6 {
        '6'
    } else if n == 7 {
        '7'
    } else if n == 8 {
        '8'
    } else if n == 9 {
        '9'
    } else if n == 10 {
        'a'
    } else if n == 11 {
        'b'
    } else if n == 12 {
        'c'
    } else if n == 13 {
        'd'
    } else if n == 14 {
        'e'
    } else {
        'f'
    }
}

impl EmitCtx {
    /// A fresh context: empty output, zero definitions emitted.
    pub fn new(options: DefinitionFileOptions) -> (r: Self)
        ensures
            r.out@ == Seq::<char>::empty(),
            r.options == options,
            r.stats.type_definitions == 0,
    {
        EmitCtx { out: String::new(), options, stats: Stats { type_definitions: 0 } }
    }

    fn append_lit(&mut self, s: &str)
        ensures
            final(self).out@ == old(self).out@ + s@,
            final(self).options == old(self).options,
            final(self).stats == old(self).stats,
    {
        self.out.append(s);
    }

    fn append_root_ns(&mut self)
        ensures
            final(self).out@ == old(self).out@ + old(self).options.root_namespace@,
            final(self).options == old(self).options,
            final(self).stats == old(self).stats,
    {
        self.out.append(self.options.root_namespace.as_str());
    }

    fn push(&mut self, c: char)
        ensures
            final(self).out@ == old(self).out@ + seq![c],
            final(self).options == old(self).options,
            final(self).stats == old(self).stats,
    {
        push_char(&mut self.out, c);
    }
}

fn emit_escaped(s: &str, i: usize, n: usize, ctx: &mut EmitCtx)
    requires
        n == s@.len(),
        i <= n,
    ensures
        final(ctx).out@ == old(ctx).out@ + escaped(s@.skip(i as int)),
        final(ctx).options == old(ctx).options,
        final(ctx).stats == old(ctx).stats,
    decreases n - i,
{
    let ghost tail = s@.skip(i as int);
    if i < n {
        let c = s.get_char(i);
        proof {
            assert(tail.first() == s@[i as int]);
            assert(tail.drop_first() =~= s@.skip(i as int + 1));
        }
        if c == '"' {
            ctx.push('\\');
            ctx.push('"');
        } else if c == '\\' {
            ctx.push('\\');
            ctx.push('\\');
        } else if c == '\n' {
            ctx.push('\\');
            ctx.push('n');
        } else if c == '\r' {
            ctx.push('\\');
            ctx.push('r');
        } else if c == '\t' {
            ctx.push('\\');
            ctx.push('t');
        } else if (c as u32) < 0x20 {
            ctx.push('\\');
            ctx.push('u');
            ctx.push('0');
            ctx.push('0');
            ctx.push(hex_digit_exec(((c as u32) / 16) as u8));
            ctx.push(hex_digit_exec(((c as u32) % 16) as u8));
        } else {
            ctx.push(c);
        }
        proof {
            assert(ctx.out@ =~= old(ctx).out@ + escape_char(c));
        }
        emit_escaped(s, i + 1, n, ctx);
        proof {
            assert(ctx.out@ =~= old(ctx).out@ + (escape_char(c) + escaped(
                tail.drop_first(),
            )));
        }
    } else {
        proof {
            assert(escaped(tail) == Seq::<char>::empty());
            assert(ctx.out@ =~= old(ctx).out@ + escaped(tail));
        }
    }
}

fn emit_doc_lines(lines: &Vec<String>, i: usize, ctx: &mut EmitCtx)
    requires
        i <= lines@.len(),
    ensures
        final(ctx).out@ == old(ctx).out@ + docs_lines(lines@.skip(i as int)),
        final(ctx).options == old(ctx).options,
        final(ctx).stats == old(ctx).stats,
    decreases lines@.len() - i,
{
    let ghost tail = lines@.skip(i as int);
    if i < lines.len() {
        ctx.append_lit(" * ");
        ctx.append_lit(lines[i].as_str());
        ctx.append_lit("\n");
        proof {
            assert(tail.first() == lines@[i as int]);
            assert(tail.drop_first() =~= lines@.skip(i as int + 1));
        }
        emit_doc_lines(lines, i + 1, ctx);
        proof {
            assert(ctx.out@ =~= old(ctx).out@ + docs_lines(tail));
        }
    } else {
        proof {
            assert(docs_lines(tail) == Seq::<char>::empty());
            assert(ctx.out@ =~= old(ctx).out@ + docs_lines(tail));
        }
    }
}

fn emit_docs(d: &Option<Docs>, ctx: &mut EmitCtx)
    ensures
        final(ctx).out@ == old(ctx).out@ + render_docs(*d),
        final(ctx).options == old(ctx).options,
        final(ctx).stats == old(ctx).stats,
{
    match d {
        Option::None => {
            proof {
                assert(ctx.out@ =~= old(ctx).out@ + render_docs(*d));
            }
        },
        Option::Some(ds) => {
            ctx.append_lit("\n/**\n");
            proof {
                assert(ds.0@.skip(0) =~= ds.0@);
            }
            emit_doc_lines(&ds.0, 0, ctx);
            ctx.append_lit(" */\n");
            proof {
                assert(ctx.out@ =~= old(ctx).out@ + render_docs(*d));
            }
        },
    }
}

fn emit_type_string(ts: &TypeString, ctx: &mut EmitCtx)
    ensures
        final(ctx).out@ == old(ctx).out@ + render_type_string(*ts),
        final(ctx).options == old(ctx).options,
        final(ctx).stats == old(ctx).stats,
{
    emit_docs(&ts.docs, ctx);
    ctx.push('"');
    let n = ts.value.as_str().unicode_len();
    proof {
        assert(ts.value@.skip(0) =~= ts.value@);
    }
    emit_escaped(ts.value.as_str(), 0, n, ctx);
    ctx.push('"');
    proof {
        assert(ctx.out@ =~= old(ctx).out@ + render_type_string(*ts));
    }
}

fn emit_path_prefix(ids: &Vec<Ident>, i: usize, ctx: &mut EmitCtx)
    requires
        i <= ids@.len(),
    ensures
        final(ctx).out@ == old(ctx).out@ + path_prefix(ids@.skip(i as int)),
        final(ctx).options == old(ctx).options,
        final(ctx).stats == old(ctx).stats,
    decreases ids@.len() - i,
{
    let ghost tail = ids@.skip(i as int);
    if i < ids.len() {
        ctx.append_lit(ids[i].0.as_str());
        ctx.append_lit(".");
        proof {
            assert(tail.first() == ids@[i as int]);
            assert(tail.drop_first() =~= ids@.skip(i as int + 1));
        }
        emit_path_prefix(ids, i + 1, ctx);
        proof {
            assert(ctx.out@ =~= old(ctx).out@ + path_prefix(tail));
        }
    } else {
        proof {
            assert(path_prefix(tail) == Seq::<char>::empty());
            assert(ctx.out@ =~= old(ctx).out@ + path_prefix(tail));
        }
    }
}

fn emit_ident_joined(ids: &Vec<Ident>, i: usize, sep: &str, ctx: &mut EmitCtx)
    requires
        i <= ids@.len(),
    ensures
        final(ctx).out@ == old(ctx).out@ + ident_joined(ids@.skip(i as int), sep@),
        final(ctx).options == old(ctx).options,
        final(ctx).stats == old(ctx).stats,
    decreases ids@.len() - i,
{
    let ghost tail = ids@.skip(i as int);
    if i < ids.len() {
        ctx.append_lit(ids[i].0.as_str());
        proof {
            assert(tail.first() == ids@[i as int]);
            assert(tail.drop_first() =~= ids@.skip(i as int + 1));
        }
        if i + 1 < ids.len() {
            ctx.append_lit(sep);
            emit_ident_joined(ids, i + 1, sep, ctx);
            proof {
                assert(ctx.out@ =~= old(ctx).out@ + ident_joined(tail, sep@));
            }
        } else {
            proof {
                assert(tail.len() == 1);
                assert(ctx.out@ =~= old(ctx).out@ + ident_joined(tail, sep@));
            }
        }
    } else {
        proof {
            assert(ident_joined(tail, sep@) == Seq::<char>::empty());
            assert(ctx.out@ =~= old(ctx).out@ + ident_joined(tail, sep@));
        }
    }
}

impl TypeExpr {
    /// Appends this expression's rendering to the context's output.
    fn emit(&self, reg: &TypeRegistry, ctx: &mut EmitCtx)
        requires
            wf_expr(*reg, *self),
        ensures
            final(ctx).out@ == old(ctx).out@ + render_expr(
                *reg,
                *self,
                old(ctx).options.root_namespace@,
            ),
            final(ctx).options == old(ctx).options,
            final(ctx).stats == old(ctx).stats,
        decreases *self, 0int,
    {
        let ghost ns = ctx.options.root_namespace@;
        match self {
            TypeExpr::Ref(info) => {
                emit_info(info, reg, ctx);
            },
            TypeExpr::TypeName(tn) => {
                tn.emit(reg, ctx);
            },
            TypeExpr::String(ts) => {
                emit_type_string(ts, ctx);
            },
            TypeExpr::Tuple(t) => {
                emit_docs(&t.docs, ctx);
                ctx.append_lit("[");
                proof {
                    assert(t.elements@.skip(0) =~= t.elements@);
                }
                emit_joined(&t.elements, 0, ",", reg, ctx);
                ctx.append_lit("]");
                proof {
                    assert(ctx.out@ =~= old(ctx).out@ + render_expr(*reg, *self, ns));
                }
            },
            TypeExpr::Object(o) => {
                emit_docs(&o.docs, ctx);
                ctx.append_lit("{");
                proof {
                    assert(o.fields@.skip(0) =~= o.fields@);
                }
                emit_fields(&o.fields, 0, reg, ctx);
                ctx.append_lit("}");
                proof {
                    assert(ctx.out@ =~= old(ctx).out@ + render_expr(*reg, *self, ns));
                }
            },
            TypeExpr::Array(a) => {
                emit_docs(&a.docs, ctx);
                ctx.append_lit("(");
                a.item.emit(reg, ctx);
                ctx.append_lit(")[]");
                proof {
                    assert(ctx.out@ =~= old(ctx).out@ + render_expr(*reg, *self, ns));
                }
            },
            TypeExpr::Union(u) => {
                emit_docs(&u.docs, ctx);
                if u.members.len() == 0 {
                    ctx.append_lit("never");
                } else {
                    ctx.append_lit("(");
                    proof {
                        assert(u.members@.skip(0) =~= u.members@);
                    }
                    emit_joined(&u.members, 0, "|", reg, ctx);
                    ctx.append_lit(")");
                }
                proof {
                    assert(ctx.out@ =~= old(ctx).out@ + render_expr(*reg, *self, ns));
                }
            },
            TypeExpr::Intersection(it) => {
                emit_docs(&it.docs, ctx);
                if it.members.len() == 0 {
                    ctx.append_lit("any");
                } else {
                    ctx.append_lit("(");
                    proof {
                        assert(it.members@.skip(0) =~= it.members@);
                    }
                    emit_joined(&it.members, 0, "&", reg, ctx);
                    ctx.append_lit(")");
                }
                proof {
                    assert(ctx.out@ =~= old(ctx).out@ + render_expr(*reg, *self, ns));
                }
            },
        }
    }
}

impl TypeName {
    /// Appends this direct name's rendering: path segments, name and
    /// supplied generics, rendered literally.
    fn emit(&self, reg: &TypeRegistry, ctx: &mut EmitCtx)
        requires
            wf_exprs(*reg, self.generic_args@),
        ensures
            final(ctx).out@ == old(ctx).out@ + path_prefix(self.path@) + self.name.0@
                + render_generic_args(*reg, self.generic_args@, old(ctx).options.root_namespace@),
            final(ctx).options == old(ctx).options,
            final(ctx).stats == old(ctx).stats,
        decreases self.generic_args@, 2int,
    {
        proof {
            assert(self.path@.skip(0) =~= self.path@);
        }
        emit_path_prefix(&self.path, 0, ctx);
        ctx.append_lit(self.name.0.as_str());
        emit_generic_args(&self.generic_args, reg, ctx);
    }
}

fn emit_info(info: &TypeInfo, reg: &TypeRegistry, ctx: &mut EmitCtx)
    requires
        wf_info(*reg, *info),
    ensures
        final(ctx).out@ == old(ctx).out@ + render_info(
            *reg,
            *info,
            old(ctx).options.root_namespace@,
        ),
        final(ctx).options == old(ctx).options,
        final(ctx).stats == old(ctx).stats,
    decreases *info, 1int,
{
    let ghost ns = ctx.options.root_namespace@;
    match info {
        TypeInfo::Native(n) => {
            n.expr.emit(reg, ctx);
        },
        TypeInfo::Custom(c) => {
            ctx.append_root_ns();
            ctx.append_lit(".");
            let d = &reg.defs[c.def];
            proof {
                assert(d.path@.skip(0) =~= d.path@);
            }
            emit_path_prefix(&d.path, 0, ctx);
            ctx.append_lit(d.name.0.as_str());
            emit_generic_args(&c.generic_args, reg, ctx);
            proof {
                assert(ctx.out@ =~= old(ctx).out@ + render_info(*reg, *info, ns));
            }
        },
    }
}

fn emit_generic_args(args: &Vec<TypeExpr>, reg: &TypeRegistry, ctx: &mut EmitCtx)
    requires
        wf_exprs(*reg, args@),
    ensures
        final(ctx).out@ == old(ctx).out@ + render_generic_args(
            *reg,
            args@,
            old(ctx).options.root_namespace@,
        ),
        final(ctx).options == old(ctx).options,
        final(ctx).stats == old(ctx).stats,
    decreases args@, 1int,
{
    let ghost ns = ctx.options.root_namespace@;
    if args.len() == 0 {
        proof {
            assert(ctx.out@ =~= old(ctx).out@ + render_generic_args(*reg, args@, ns));
        }
    } else {
        ctx.append_lit("<");
        proof {
            assert(args@.skip(0) =~= args@);
        }
        emit_joined(args, 0, ",", reg, ctx);
        ctx.append_lit(">");
        proof {
            assert(ctx.out@ =~= old(ctx).out@ + render_generic_args(*reg, args@, ns));
        }
    }
}

fn emit_joined(es: &Vec<TypeExpr>, i: usize, sep: &str, reg: &TypeRegistry, ctx: &mut EmitCtx)
    requires
        i <= es@.len(),
        wf_exprs(*reg, es@),
    ensures
        final(ctx).out@ == old(ctx).out@ + render_joined(
            *reg,
            es@.skip(i as int),
            old(ctx).options.root_namespace@,
            sep@,
        ),
        final(ctx).options == old(ctx).options,
        final(ctx).stats == old(ctx).stats,
    decreases es@.skip(i as int), 0int,
{
    let ghost ns = ctx.options.root_namespace@;
    let ghost tail = es@.skip(i as int);
    if i < es.len() {
        proof {
            assert(tail.first() == es@[i as int]);
            assert(tail.drop_first() == tail.subrange(1, tail.len() as int));
            assert(tail.drop_first() =~= es@.skip(i as int + 1));
            assert(wf_expr(*reg, es@[i as int]));
        }
        es[i].emit(reg, ctx);
        if i + 1 < es.len() {
            ctx.append_lit(sep);
            emit_joined(es, i + 1, sep, reg, ctx);
            proof {
                assert(ctx.out@ =~= old(ctx).out@ + render_joined(*reg, tail, ns, sep@));
            }
        } else {
            proof {
                assert(tail.len() == 1);
                assert(ctx.out@ =~= old(ctx).out@ + render_joined(*reg, tail, ns, sep@));
            }
        }
    } else {
        proof {
            assert(render_joined(*reg, tail, ns, sep@) == Seq::<char>::empty());
            assert(ctx.out@ =~= old(ctx).out@ + render_joined(*reg, tail, ns, sep@));
        }
    }
}

fn emit_fields(fs: &Vec<ObjectField>, i: usize, reg: &TypeRegistry, ctx: &mut EmitCtx)
    requires
        i <= fs@.len(),
        wf_fields(*reg, fs@),
    ensures
        final(ctx).out@ == old(ctx).out@ + render_fields(
            *reg,
            fs@.skip(i as int),
            old(ctx).options.root_namespace@,
        ),
        final(ctx).options == old(ctx).options,
        final(ctx).stats == old(ctx).stats,
    decreases fs@.skip(i as int), 3int,
{
    let ghost ns = ctx.options.root_namespace@;
    let ghost tail = fs@.skip(i as int);
    if i < fs.len() {
        let f = &fs[i];
        proof {
            assert(tail.first() == fs@[i as int]);
            assert(tail.drop_first() == tail.subrange(1, tail.len() as int));
            assert(tail.drop_first() =~= fs@.skip(i as int + 1));
            assert(wf_expr(*reg, fs@[i as int].ty));
        }
        emit_docs(&f.docs, ctx);
        emit_type_string(&f.name, ctx);
        if f.optional {
            ctx.append_lit("?");
        }
        ctx.append_lit(":");
        f.ty.emit(reg, ctx);
        ctx.append_lit(";");
        proof {
            assert(ctx.out@ =~= old(ctx).out@ + render_field(*reg, tail.first(), ns));
        }
        emit_fields(fs, i + 1, reg, ctx);
        proof {
            assert(ctx.out@ =~= old(ctx).out@ + render_fields(*reg, tail, ns));
        }
    } else {
        proof {
            assert(render_fields(*reg, tail, ns) == Seq::<char>::empty());
            assert(ctx.out@ =~= old(ctx).out@ + render_fields(*reg, tail, ns));
        }
    }
}

impl EmitCtx {
    /// Renders the definition with handle `i` and counts it in the
    /// statistics.
    #[verifier::rlimit(50)]
    pub fn emit_def(&mut self, reg: &TypeRegistry, i: usize)
        requires
            reg.wf(),
            i < reg.defs@.len(),
            old(self).stats.type_definitions < usize::MAX,
        ensures
            final(self).out@ == old(self).out@ + render_def(
                *reg,
                i as int,
                old(self).options.root_namespace@,
            ),
            final(self).options == old(self).options,
            final(self).stats.type_definitions == old(self).stats.type_definitions + 1,
    {
        let ghost ns = self.options.root_namespace@;
        self.stats.type_definitions = self.stats.type_definitions + 1;
        let d = &reg.defs[i];
        emit_docs(&d.docs, self);
        if d.path.len() > 0 {
            self.append_lit("export namespace ");
            proof {
                assert(d.path@.skip(0) =~= d.path@);
            }
            emit_ident_joined(&d.path, 0, ".", self);
            self.append_lit("{");
        }
        self.append_lit("export type ");
        self.append_lit(d.name.0.as_str());
        if d.generic_vars.len() > 0 {
            self.append_lit("<");
            proof {
                assert(d.generic_vars@.skip(0) =~= d.generic_vars@);
            }
            emit_ident_joined(&d.generic_vars, 0, ",", self);
            self.append_lit(">");
        }
        self.append_lit("=");
        proof {
            assert(wf_expr(*reg, reg.defs@[i as int].def));
        }
        d.def.emit(reg, self);
        self.append_lit(";");
        if d.path.len() > 0 {
            self.append_lit("}");
        }
        self.append_lit("\n");
        proof {
            assert(self.out@ =~= old(self).out@ + render_def(*reg, i as int, ns));
        }
    }

    /// Emits every definition of the reference closure of `info`, each
    /// exactly once, in first-discovery order, and counts them.
    pub fn emit_type(&mut self, reg: &TypeRegistry, info: &TypeInfo)
        requires
            reg.wf(),
            wf_info(*reg, *info),
            old(self).stats.type_definitions + reg.defs@.len() <= usize::MAX,
        ensures
            final(self).out@ == old(self).out@ + render_defs(
                *reg,
                dfs_info(*reg, *info, Set::empty()),
                old(self).options.root_namespace@,
            ),
            final(self).options == old(self).options,
            final(self).stats.type_definitions == old(self).stats.type_definitions + dfs_info(
                *reg,
                *info,
                Set::empty(),
            ).len(),
    {
        let order = resolve_info(reg, info);
        proof {
            lemma_closure_bound(*reg, *info);
            assert(order@.skip(0) =~= order@);
        }
        emit_ordered_defs(&order, 0, reg, self);
    }
}

fn emit_ordered_defs(order: &Vec<usize>, i: usize, reg: &TypeRegistry, ctx: &mut EmitCtx)
    requires
        reg.wf(),
        i <= order@.len(),
        forall|k: int| 0 <= k < order@.len() ==> (#[trigger] order@[k]) < reg.defs@.len(),
        old(ctx).stats.type_definitions + (order@.len() - i) <= usize::MAX,
    ensures
        final(ctx).out@ == old(ctx).out@ + render_defs(
            *reg,
            order@.skip(i as int),
            old(ctx).options.root_namespace@,
        ),
        final(ctx).options == old(ctx).options,
        final(ctx).stats.type_definitions == old(ctx).stats.type_definitions + (order@.len() - i),
    decreases order@.len() - i,
{
    let ghost ns = ctx.options.root_namespace@;
    let ghost tail = order@.skip(i as int);
    if i < order.len() {
        proof {
            assert(tail.first() == order@[i as int]);
            assert(tail.drop_first() =~= order@.skip(i as int + 1));
        }
        ctx.emit_def(reg, order[i]);
        emit_ordered_defs(order, i + 1, reg, ctx);
        proof {
            assert(ctx.out@ =~= old(ctx).out@ + render_defs(*reg, tail, ns));
        }
    } else {
        proof {
            assert(render_defs(*reg, tail, ns) == Seq::<char>::empty());
            assert(ctx.out@ =~= old(ctx).out@ + render_defs(*reg, tail, ns));
        }
    }
}

impl Default for DefinitionFileOptions {
    /// The default options: the fixed auto-generation notice as the header,
    /// and `types` as the root namespace.
    fn default() -> (r: Self)
        ensures
            r.header is Some,
            r.header->Some_0@ == "// AUTO-GENERATED by typescript-type-def\n"@,
            r.root_namespace@ == "types"@,
    {
        DefinitionFileOptions {
            header: Some("// AUTO-GENERATED by typescript-type-def\n".to_owned()),
            root_namespace: "types".to_owned(),
        }
    }
}

/// Writes one whole TypeScript definition file for the root type
/// description `info` onto the end of `out`, and returns the statistics.
///
/// The module exports the root namespace as its default export and defines,
/// inside the root namespace block, every definition transitively reachable
/// from the root, each exactly once, in first-discovery order; the exact
/// text is [`render_module`]. The returned count equals the size of the
/// reference closure of the root.
///
/// One closure computation suffices: native-backed expressions are held
/// structurally, so the resolver already sees every definition their
/// rendering will mention, and a second round of closure computation after
/// emission could discover nothing new.
pub fn write_definition_file(
    reg: &TypeRegistry,
    info: &TypeInfo,
    options: DefinitionFileOptions,
    out: &mut String,
) -> (r: Stats)
    requires
        reg.wf(),
        wf_info(*reg, *info),
    ensures
        final(out)@ == old(out)@ + render_module(*reg, *info, options),
        r.type_definitions == dfs_info(*reg, *info, Set::empty()).len(),
        r.type_definitions == reachable_info(*reg, *info).len(),
{
    let ghost opts = options;
    let mut ctx = EmitCtx::new(options);
    match &ctx.options.header {
        Option::Some(h) => {
            let header = h.clone();
            ctx.append_lit(header.as_str());
            ctx.append_lit("\n");
        },
        Option::None => {},
    }
    ctx.append_lit("export default ");
    ctx.append_root_ns();
    ctx.append_lit(";\n");
    ctx.append_lit("export namespace ");
    ctx.append_root_ns();
    ctx.append_lit("{\n");
    proof {
        let n = reg.defs@.len();
        lemma_closure_bound(*reg, *info);
    }
    let defs_len: usize = reg.defs.len();
    proof {
        assert(ctx.stats.type_definitions + reg.defs@.len() <= usize::MAX);
    }
    ctx.emit_type(reg, info);
    ctx.append_lit("}\n");
    proof {
        lemma_closure_exact(*reg, *info);
        assert(ctx.out@ =~= render_module(*reg, *info, opts));
    }
    out.append(ctx.out.as_str());
    ctx.stats
}

} // verus!
