//! Partial updates of structured records.
//!
//! The runtime side is the pair of traits [`Patchable`] and [`Patch`] (plus the
//! fallible [`TryPatch`]). The derivation side is an engine that, given the
//! description of a record declaration, classifies its fields, decides which
//! generic parameters and obligations its patch type carries, and emits the
//! source of the patch type, of the impl that links the record to it, of the
//! update procedure and of the conversion from the record into its patch.
//! [`semantics`] states what the emitted procedures do to values and proves
//! the laws they obey.

pub mod analyze;
pub mod classify;
pub mod derive;
pub mod emit;
pub mod model;
pub mod semantics;
pub mod text;
mod traits;

pub use analyze::{Derivation, TypeUsage, derive_record, type_mentions};
pub use classify::{ActionKind, FieldAction, classify_fields, has_patchable_attr, has_patchable_skip_attr};
pub use derive::{derive_patch, derive_patchable, use_site_crate_path};
pub use emit::{
    build_from_trait_impl, build_patch_struct, build_patch_trait_impl, build_patchable_trait_impl,
};
pub use model::{
    DeclKind, EngineError, FieldDecl, GenericParam, ParamKind, PatchableAttr, PathSegment,
    RecordDecl, Shape, TypeExpr, TypeKind, WhereClause,
};
pub use traits::{Patch, Patchable, TryPatch};
