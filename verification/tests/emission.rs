use typescript_type_def::type_expr::{
    Array, CustomTypeInfo, Docs, Ident, Intersection, NativeTypeInfo, Object, ObjectField, Tuple,
    TypeDefinition, TypeExpr, TypeInfo, TypeName, TypeRegistry, TypeString, Union,
};
use typescript_type_def::{
    write_definition_file, DefinitionFileOptions, EmitCtx, Stats, TypeDef,
};

fn ident(s: &str) -> Ident {
    Ident(s.to_string())
}

fn name_expr(s: &str) -> TypeExpr {
    TypeExpr::ident(ident(s))
}

fn lit(s: &str) -> TypeString {
    TypeString {
        docs: None,
        value: s.to_string(),
    }
}

fn field(name: &str, optional: bool, ty: TypeExpr) -> ObjectField {
    ObjectField {
        docs: None,
        name: lit(name),
        optional,
        ty,
    }
}

fn obj(fields: Vec<ObjectField>) -> TypeExpr {
    TypeExpr::Object(Object { docs: None, fields })
}

fn custom(def: usize) -> TypeExpr {
    TypeExpr::Ref(TypeInfo::Custom(CustomTypeInfo {
        def,
        generic_args: vec![],
    }))
}

fn union(members: Vec<TypeExpr>) -> TypeExpr {
    TypeExpr::Union(Union {
        docs: None,
        members,
    })
}

fn plain_def(name: &str, body: TypeExpr) -> TypeDefinition {
    TypeDefinition {
        docs: None,
        path: vec![],
        name: ident(name),
        generic_vars: vec![],
        def: body,
    }
}

fn no_header() -> DefinitionFileOptions {
    DefinitionFileOptions {
        header: None,
        root_namespace: "types".to_string(),
    }
}

fn emit(reg: &TypeRegistry, info: &TypeInfo) -> (String, Stats) {
    assert!(reg.check_wf());
    assert!(reg.check_wf_root(info));
    let mut out = String::new();
    let stats = write_definition_file(reg, info, no_header(), &mut out);
    (out, stats)
}

#[test]
fn record_field_order_and_aliases() {
    let mut reg = TypeRegistry::new();
    let usize_def = reg.add_def(plain_def("Usize", name_expr("number")));
    let foo_def = reg.add_def(plain_def(
        "Foo",
        obj(vec![
            field("a", false, custom(usize_def)),
            field("b", false, name_expr("string")),
        ]),
    ));
    let info = TypeInfo::Custom(CustomTypeInfo {
        def: foo_def,
        generic_args: vec![],
    });
    assert!(reg.check_wf());
    let mut out = String::new();
    let stats = write_definition_file(&reg, &info, DefinitionFileOptions::default(), &mut out);
    assert_eq!(
        out,
        "// AUTO-GENERATED by typescript-type-def\n\n\
         export default types;\n\
         export namespace types{\n\
         export type Foo={\"a\":types.Usize;\"b\":string;};\n\
         export type Usize=number;\n\
         }\n"
    );
    assert_eq!(stats, Stats {
        type_definitions: 2
    });
}

#[test]
fn empty_union_is_never_and_empty_intersection_is_any() {
    let mut reg = TypeRegistry::new();
    let e = reg.add_def(plain_def(
        "Empty",
        TypeExpr::Union(Union {
            docs: None,
            members: vec![],
        }),
    ));
    let u = reg.add_def(plain_def(
        "Universal",
        TypeExpr::Intersection(Intersection {
            docs: None,
            members: vec![],
        }),
    ));
    let info = TypeInfo::Native(NativeTypeInfo {
        expr: Box::new(TypeExpr::Tuple(Tuple {
            docs: None,
            elements: vec![custom(e), custom(u)],
        })),
    });
    let (out, stats) = emit(&reg, &info);
    assert_eq!(
        out,
        "export default types;\n\
         export namespace types{\n\
         export type Empty=never;\n\
         export type Universal=any;\n\
         }\n"
    );
    assert!(!out.contains("()"));
    assert_eq!(stats.type_definitions, 2);
}

#[test]
fn generic_reference_with_matching_arity() {
    let mut reg = TypeRegistry::new();
    let pair = reg.add_def(TypeDefinition {
        docs: None,
        path: vec![ident("bar")],
        name: ident("Pair"),
        generic_vars: vec![ident("A"), ident("B")],
        def: TypeExpr::Tuple(Tuple {
            docs: None,
            elements: vec![name_expr("A"), name_expr("B")],
        }),
    });
    let use_def = reg.add_def(plain_def(
        "Use",
        TypeExpr::Ref(TypeInfo::Custom(CustomTypeInfo {
            def: pair,
            generic_args: vec![name_expr("string"), name_expr("number")],
        })),
    ));
    let info = TypeInfo::Custom(CustomTypeInfo {
        def: use_def,
        generic_args: vec![],
    });
    let (out, stats) = emit(&reg, &info);
    assert_eq!(
        out,
        "export default types;\n\
         export namespace types{\n\
         export type Use=types.bar.Pair<string,number>;\n\
         export namespace bar{export type Pair<A,B>=[A,B];}\n\
         }\n"
    );
    assert_eq!(stats.type_definitions, 2);
}

#[test]
fn generic_reference_with_wrong_arity_is_rejected() {
    for wrong_args in [
        vec![name_expr("string")],
        vec![
            name_expr("string"),
            name_expr("number"),
            name_expr("boolean"),
        ],
    ] {
        let mut reg = TypeRegistry::new();
        let pair = reg.add_def(TypeDefinition {
            docs: None,
            path: vec![ident("bar")],
            name: ident("Pair"),
            generic_vars: vec![ident("A"), ident("B")],
            def: TypeExpr::Tuple(Tuple {
                docs: None,
                elements: vec![name_expr("A"), name_expr("B")],
            }),
        });
        reg.add_def(plain_def(
            "Use",
            TypeExpr::Ref(TypeInfo::Custom(CustomTypeInfo {
                def: pair,
                generic_args: wrong_args,
            })),
        ));
        assert!(!reg.check_wf());
    }
}

#[test]
fn out_of_range_reference_is_rejected() {
    let mut reg = TypeRegistry::new();
    reg.add_def(plain_def("Dangling", custom(7)));
    assert!(!reg.check_wf());
    let info = TypeInfo::Custom(CustomTypeInfo {
        def: 7,
        generic_args: vec![],
    });
    assert!(!reg.check_wf_root(&info));
}

#[test]
fn same_name_in_two_namespaces_both_emitted_fully_qualified() {
    let mut reg = TypeRegistry::new();
    let foo_top = reg.add_def(plain_def("Foo", name_expr("number")));
    let foo_bar = reg.add_def(TypeDefinition {
        docs: None,
        path: vec![ident("bar")],
        name: ident("Foo"),
        generic_vars: vec![],
        def: name_expr("string"),
    });
    let both = reg.add_def(plain_def(
        "Both",
        obj(vec![
            field("a", false, custom(foo_top)),
            field("b", false, custom(foo_bar)),
        ]),
    ));
    let info = TypeInfo::Custom(CustomTypeInfo {
        def: both,
        generic_args: vec![],
    });
    let (out, stats) = emit(&reg, &info);
    assert_eq!(
        out,
        "export default types;\n\
         export namespace types{\n\
         export type Both={\"a\":types.Foo;\"b\":types.bar.Foo;};\n\
         export type Foo=number;\n\
         export namespace bar{export type Foo=string;}\n\
         }\n"
    );
    assert!(out.contains("types.Foo"));
    assert!(out.contains("types.bar.Foo"));
    assert!(!out.contains(":Foo;"));
    assert_eq!(stats.type_definitions, 3);
}

#[test]
fn self_referential_type_terminates_and_is_emitted_once() {
    let mut reg = TypeRegistry::new();
    let node = reg.add_def(plain_def(
        "Node",
        obj(vec![field(
            "next",
            false,
            union(vec![custom(0), name_expr("null")]),
        )]),
    ));
    assert_eq!(node, 0);
    let info = TypeInfo::Custom(CustomTypeInfo {
        def: node,
        generic_args: vec![],
    });
    let (out, stats) = emit(&reg, &info);
    assert_eq!(
        out,
        "export default types;\n\
         export namespace types{\n\
         export type Node={\"next\":(types.Node|null);};\n\
         }\n"
    );
    assert_eq!(stats.type_definitions, 1);
    assert_eq!(out.matches("export type Node").count(), 1);
}

#[test]
fn mutually_recursive_types_are_each_emitted_once() {
    let mut reg = TypeRegistry::new();
    reg.add_def(plain_def(
        "Ping",
        obj(vec![field(
            "pong",
            false,
            union(vec![custom(1), name_expr("null")]),
        )]),
    ));
    reg.add_def(plain_def(
        "Pong",
        obj(vec![field(
            "ping",
            false,
            union(vec![custom(0), name_expr("null")]),
        )]),
    ));
    let info = TypeInfo::Custom(CustomTypeInfo {
        def: 0,
        generic_args: vec![],
    });
    let (out, stats) = emit(&reg, &info);
    assert_eq!(stats.type_definitions, 2);
    assert_eq!(out.matches("export type Ping").count(), 1);
    assert_eq!(out.matches("export type Pong").count(), 1);
    assert!(out.contains("types.Pong"));
    assert!(out.contains("types.Ping"));
}

#[test]
fn repeated_references_are_deduplicated() {
    let mut reg = TypeRegistry::new();
    let a = reg.add_def(plain_def("A", name_expr("number")));
    let b = reg.add_def(plain_def("B", obj(vec![field("a", false, custom(a))])));
    let info = TypeInfo::Native(NativeTypeInfo {
        expr: Box::new(TypeExpr::Tuple(Tuple {
            docs: None,
            elements: vec![custom(a), custom(a), custom(b), custom(a)],
        })),
    });
    let (out, stats) = emit(&reg, &info);
    assert_eq!(stats.type_definitions, 2);
    assert_eq!(out.matches("export type A=").count(), 1);
    assert_eq!(out.matches("export type B=").count(), 1);
}

#[test]
fn string_literals_are_escaped() {
    let mut reg = TypeRegistry::new();
    let s = reg.add_def(plain_def(
        "S",
        TypeExpr::String(lit("he said \"hi\"\\\n\tctrl:\u{1}")),
    ));
    let info = TypeInfo::Custom(CustomTypeInfo {
        def: s,
        generic_args: vec![],
    });
    let (out, _) = emit(&reg, &info);
    assert_eq!(
        out,
        "export default types;\n\
         export namespace types{\n\
         export type S=\"he said \\\"hi\\\"\\\\\\n\\tctrl:\\u0001\";\n\
         }\n"
    );
}

#[test]
fn optional_fields_get_question_marks() {
    let mut reg = TypeRegistry::new();
    let d = reg.add_def(plain_def(
        "Opt",
        obj(vec![
            field("must", false, name_expr("string")),
            field("may", true, name_expr("number")),
        ]),
    ));
    let info = TypeInfo::Custom(CustomTypeInfo {
        def: d,
        generic_args: vec![],
    });
    let (out, _) = emit(&reg, &info);
    assert!(out.contains("export type Opt={\"must\":string;\"may\"?:number;};\n"));
}

#[test]
fn arrays_are_parenthesized() {
    let mut reg = TypeRegistry::new();
    let d = reg.add_def(plain_def(
        "Arr",
        TypeExpr::Array(Array {
            docs: None,
            item: Box::new(union(vec![name_expr("string"), name_expr("number")])),
        }),
    ));
    let info = TypeInfo::Custom(CustomTypeInfo {
        def: d,
        generic_args: vec![],
    });
    let (out, _) = emit(&reg, &info);
    assert!(out.contains("export type Arr=((string|number))[];\n"));
}

#[test]
fn direct_names_render_literally() {
    let mut reg = TypeRegistry::new();
    let d = reg.add_def(plain_def(
        "Map",
        TypeExpr::TypeName(TypeName {
            path: vec![],
            name: ident("Record"),
            generic_args: vec![name_expr("string"), name_expr("number")],
        }),
    ));
    let info = TypeInfo::Custom(CustomTypeInfo {
        def: d,
        generic_args: vec![],
    });
    let (out, _) = emit(&reg, &info);
    assert!(out.contains("export type Map=Record<string,number>;\n"));
    assert!(!out.contains("types.Record"));
}

#[test]
fn docs_render_as_block_comments() {
    let mut reg = TypeRegistry::new();
    let d = reg.add_def(TypeDefinition {
        docs: Some(Docs(vec![
            "First line".to_string(),
            "Second line".to_string(),
        ])),
        path: vec![],
        name: ident("D"),
        generic_vars: vec![],
        def: name_expr("number"),
    });
    let info = TypeInfo::Custom(CustomTypeInfo {
        def: d,
        generic_args: vec![],
    });
    let (out, _) = emit(&reg, &info);
    assert!(out.contains("\n/**\n * First line\n * Second line\n */\nexport type D=number;\n"));
}

#[test]
fn default_options_have_the_generation_notice_and_types_namespace() {
    let options = DefinitionFileOptions::default();
    assert_eq!(
        options.header,
        Some("// AUTO-GENERATED by typescript-type-def\n".to_string())
    );
    assert_eq!(options.root_namespace, "types".to_string());
}

#[test]
fn custom_root_namespace_is_used_everywhere() {
    let mut reg = TypeRegistry::new();
    let a = reg.add_def(plain_def("A", name_expr("number")));
    let b = reg.add_def(plain_def("B", obj(vec![field("a", false, custom(a))])));
    let info = TypeInfo::Custom(CustomTypeInfo {
        def: b,
        generic_args: vec![],
    });
    assert!(reg.check_wf());
    let mut out = String::new();
    let options = DefinitionFileOptions {
        header: None,
        root_namespace: "api".to_string(),
    };
    write_definition_file(&reg, &info, options, &mut out);
    assert_eq!(
        out,
        "export default api;\n\
         export namespace api{\n\
         export type B={\"a\":api.A;};\n\
         export type A=number;\n\
         }\n"
    );
}

struct Point;

impl TypeDef for Point {
    fn register(reg: &mut TypeRegistry) -> TypeInfo {
        let d = reg.add_def(TypeDefinition {
            docs: None,
            path: vec![],
            name: Ident("Point".to_string()),
            generic_vars: vec![],
            def: TypeExpr::Object(Object {
                docs: None,
                fields: vec![
                    ObjectField {
                        docs: None,
                        name: TypeString {
                            docs: None,
                            value: "x".to_string(),
                        },
                        optional: false,
                        ty: TypeExpr::ident(Ident("number".to_string())),
                    },
                    ObjectField {
                        docs: None,
                        name: TypeString {
                            docs: None,
                            value: "y".to_string(),
                        },
                        optional: false,
                        ty: TypeExpr::ident(Ident("number".to_string())),
                    },
                ],
            }),
        });
        TypeInfo::Custom(CustomTypeInfo {
            def: d,
            generic_args: vec![],
        })
    }
}

#[test]
fn type_def_trait_registers_and_emits() {
    let mut reg = TypeRegistry::new();
    let info = Point::register(&mut reg);
    let (out, stats) = emit(&reg, &info);
    assert_eq!(
        out,
        "export default types;\n\
         export namespace types{\n\
         export type Point={\"x\":number;\"y\":number;};\n\
         }\n"
    );
    assert_eq!(stats.type_definitions, 1);
}

#[test]
fn emit_ctx_counts_definitions() {
    let mut reg = TypeRegistry::new();
    let a = reg.add_def(plain_def("A", name_expr("number")));
    let b = reg.add_def(plain_def("B", obj(vec![field("a", false, custom(a))])));
    assert!(reg.check_wf());
    let mut ctx = EmitCtx::new(no_header());
    assert_eq!(ctx.stats.type_definitions, 0);
    ctx.emit_def(&reg, a);
    assert_eq!(ctx.stats.type_definitions, 1);
    assert_eq!(ctx.out, "export type A=number;\n");
    let info = TypeInfo::Custom(CustomTypeInfo {
        def: b,
        generic_args: vec![],
    });
    assert!(reg.check_wf_root(&info));
    ctx.emit_type(&reg, &info);
    assert_eq!(ctx.stats.type_definitions, 3);
}

#[test]
fn definitions_referenced_from_name_generics_are_discovered() {
    let mut reg = TypeRegistry::new();
    let a = reg.add_def(plain_def("A", name_expr("number")));
    let m = reg.add_def(plain_def(
        "M",
        TypeExpr::TypeName(TypeName {
            path: vec![],
            name: ident("Record"),
            generic_args: vec![name_expr("string"), custom(a)],
        }),
    ));
    let info = TypeInfo::Custom(CustomTypeInfo {
        def: m,
        generic_args: vec![],
    });
    let (out, stats) = emit(&reg, &info);
    assert!(out.contains("export type M=Record<string,types.A>;\n"));
    assert!(out.contains("export type A=number;\n"));
    assert_eq!(stats.type_definitions, 2);
}

#[test]
fn nonempty_intersections_join_with_ampersands() {
    let mut reg = TypeRegistry::new();
    let d = reg.add_def(plain_def(
        "Mix",
        TypeExpr::Intersection(Intersection {
            docs: None,
            members: vec![
                obj(vec![field("a", false, name_expr("string"))]),
                obj(vec![field("b", false, name_expr("number"))]),
            ],
        }),
    ));
    let info = TypeInfo::Custom(CustomTypeInfo {
        def: d,
        generic_args: vec![],
    });
    let (out, _) = emit(&reg, &info);
    assert!(out.contains("export type Mix=({\"a\":string;}&{\"b\":number;});\n"));
}

#[test]
fn native_references_render_verbatim_and_resolve_through() {
    let mut reg = TypeRegistry::new();
    let a = reg.add_def(plain_def("A", name_expr("number")));
    let wrapped = reg.add_def(plain_def(
        "Wrapped",
        TypeExpr::Ref(TypeInfo::Native(NativeTypeInfo {
            expr: Box::new(TypeExpr::Array(Array {
                docs: None,
                item: Box::new(custom(a)),
            })),
        })),
    ));
    let info = TypeInfo::Custom(CustomTypeInfo {
        def: wrapped,
        generic_args: vec![],
    });
    let (out, stats) = emit(&reg, &info);
    assert!(out.contains("export type Wrapped=(types.A)[];\n"));
    assert_eq!(stats.type_definitions, 2);
}
