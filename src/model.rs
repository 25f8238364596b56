//! The structured description of a record declaration, as the front-end hands
//! it to the engine, and the errors the engine reports on it.

use vstd::prelude::*;

verus! {

/// What kind of item the declaration is; only structs are records.
#[derive(Clone, Copy, Debug, PartialEq, Eq, Structural)]
pub enum DeclKind {
    Struct,
    Enum,
    Union,
}

/// How the fields of a record are arranged.
#[derive(Clone, Copy, Debug, PartialEq, Eq, Structural)]
pub enum Shape {
    /// `struct S { a: A, b: B }`
    Named,
    /// `struct S(A, B);`
    Positional,
    /// `struct S;`
    Empty,
}

/// The kind of a generic parameter.
#[derive(Clone, Copy, Debug, PartialEq, Eq, Structural)]
pub enum ParamKind {
    Type,
    Lifetime,
    Const,
}

/// One generic parameter of the declaration.
#[derive(Clone, Debug)]
pub struct GenericParam {
    pub kind: ParamKind,
    /// The bare name, as it appears in a use of the type (`T`, `'a`, `N`).
    pub name: String,
    /// The parameter as declared, bounds included, defaults left out
    /// (`T: Clone`, `const N: usize`).
    pub decl: String,
}

/// A type expression. `text` is its canonical source rendering; `kind` is the
/// part of its structure that the engine inspects.
#[derive(Debug)]
pub struct TypeExpr {
    pub text: String,
    pub kind: TypeKind,
}

#[derive(Debug)]
pub enum TypeKind {
    /// A path such as `a::b::C<T>`; `qself` holds `X` of a qualified path
    /// `<X as Tr>::Item`.
    Path { qself: Option<Box<TypeExpr>>, segments: Vec<PathSegment> },
    /// Any other form (reference, tuple, array, slice, function pointer, ...),
    /// with the types it is built from.
    Other { parts: Vec<TypeExpr> },
}

/// One segment of a path, with the types that its arguments name.
#[derive(Debug)]
pub struct PathSegment {
    pub ident: String,
    /// Whether the segment carries arguments at all (`Vec<T>`, `Fn(A) -> B`).
    pub has_args: bool,
    pub args: Vec<TypeExpr>,
}

/// A `patchable` attribute on a field, as written.
#[derive(Clone, Debug)]
pub enum PatchableAttr {
    /// `#[patchable]`
    Bare,
    /// `#[patchable(p, q, ...)]`, each parameter as its source text.
    List(Vec<String>),
    /// `#[patchable = ...]`
    NameValue,
}

#[derive(Debug)]
pub struct FieldDecl {
    /// The field's name; `None` for a positional field.
    pub name: Option<String>,
    pub ty: TypeExpr,
    /// The field's `patchable` attributes; other attributes are not listed.
    pub attrs: Vec<PatchableAttr>,
}

/// An existing `where` clause of the declaration. Separators are not kept:
/// the emitter writes its own between predicates.
#[derive(Clone, Debug)]
pub struct WhereClause {
    /// Each predicate as source text.
    pub predicates: Vec<String>,
}

/// A record declaration: the engine's only input.
#[derive(Debug)]
pub struct RecordDecl {
    pub kind: DeclKind,
    pub name: String,
    pub params: Vec<GenericParam>,
    pub where_clause: Option<WhereClause>,
    pub shape: Shape,
    pub fields: Vec<FieldDecl>,
}

/// Why a declaration cannot be transformed. Each aborts the whole
/// transformation of that declaration.
#[derive(Clone, Copy, Debug, PartialEq, Eq, Structural)]
pub enum EngineError {
    /// The input is not a struct.
    NotARecord,
    /// A generic parameter is a lifetime (a borrow binding).
    BorrowedParameter { param: usize },
    /// A `patchable` attribute of the field has an unsupported form or parameter.
    AttributeSyntax { field: usize },
    /// The type of a recursively patched field is not a plain path.
    RecurseTypeShape { field: usize },
}

} // verus!
