//! Emit TypeScript type definitions for statically described type shapes.
//!
//! A type's shape is described by a tree of [`type_expr::TypeExpr`] nodes
//! (primitives behind native references, tuples, objects, arrays, unions,
//! intersections, string literals and named references). Named definitions
//! live in an append-only [`type_expr::TypeRegistry`] and are referenced by
//! index, which is what lets self-referential and mutually recursive types be
//! represented without unbounded structural recursion.

pub mod emit;
pub mod resolve;
pub mod type_expr;

pub use emit::DefinitionFileOptions;
pub use emit::EmitCtx;
pub use emit::Stats;
pub use emit::TypeDef;
pub use emit::write_definition_file;
pub use type_expr::TypeRegistry;
