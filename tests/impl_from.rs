use patchable::{
    derive_patch, derive_patchable, DeclKind, FieldDecl, GenericParam, ParamKind, Patch,
    PatchableAttr, PathSegment, Patchable, RecordDecl, Shape, TypeExpr, TypeKind,
};

// The items below are the engine's output for these declarations, laid out
// over several lines (with `Debug` written by its short name); the test
// `engine_output_matches_the_items_below` holds the two
// together.

#[derive(Clone, Debug, PartialEq)]
struct Inner {
    value: i32,
}

#[derive(Debug)]
pub struct InnerPatch<> { value: i32 }
impl<> ::patchable::Patchable for Inner<> { type Patch = InnerPatch<>; }
impl<> ::core::convert::From<Inner<>> for InnerPatch<> {
    fn from(value: Inner<>) -> Self { Self { value: value.value } }
}
impl<> ::patchable::Patch for Inner<> {
    fn patch(&mut self, patch: Self::Patch) { self.value = patch.value; }
}

#[derive(Clone, Debug, PartialEq)]
struct Outer<InnerType> {
    inner: InnerType,
    extra: u32,
}

#[derive(Debug)]
pub struct OuterPatch<InnerType>
where InnerType: ::patchable::Patchable, <InnerType as ::patchable::Patchable>::Patch: ::core::fmt::Debug
{ inner: <InnerType as ::patchable::Patchable>::Patch, extra: u32 }
impl<InnerType> ::patchable::Patchable for Outer<InnerType>
where InnerType: ::patchable::Patchable, <InnerType as ::patchable::Patchable>::Patch: ::core::fmt::Debug
{ type Patch = OuterPatch<InnerType>; }
impl<InnerType> ::core::convert::From<Outer<InnerType>> for OuterPatch<InnerType>
where InnerType: ::patchable::Patchable,
    <InnerType as ::patchable::Patchable>::Patch: ::core::convert::From<InnerType> + ::core::fmt::Debug
{
    fn from(value: Outer<InnerType>) -> Self {
        Self { inner: ::core::convert::From::from(value.inner), extra: value.extra }
    }
}
impl<InnerType> ::patchable::Patch for Outer<InnerType>
where InnerType: ::patchable::Patch, <InnerType as ::patchable::Patchable>::Patch: ::core::fmt::Debug
{
    fn patch(&mut self, patch: Self::Patch) {
        ::patchable::Patch::patch(&mut self.inner, patch.inner); self.extra = patch.extra;
    }
}

#[derive(Clone, Debug, PartialEq)]
struct TupleOuter<InnerType>(InnerType, u32);

#[derive(Debug)]
pub struct TupleOuterPatch<InnerType>(<InnerType as ::patchable::Patchable>::Patch, u32)
where InnerType: ::patchable::Patchable, <InnerType as ::patchable::Patchable>::Patch: ::core::fmt::Debug;
impl<InnerType> ::patchable::Patchable for TupleOuter<InnerType>
where InnerType: ::patchable::Patchable, <InnerType as ::patchable::Patchable>::Patch: ::core::fmt::Debug
{ type Patch = TupleOuterPatch<InnerType>; }
impl<InnerType> ::core::convert::From<TupleOuter<InnerType>> for TupleOuterPatch<InnerType>
where InnerType: ::patchable::Patchable,
    <InnerType as ::patchable::Patchable>::Patch: ::core::convert::From<InnerType> + ::core::fmt::Debug
{
    fn from(value: TupleOuter<InnerType>) -> Self {
        Self(::core::convert::From::from(value.0), value.1)
    }
}
impl<InnerType> ::patchable::Patch for TupleOuter<InnerType>
where InnerType: ::patchable::Patch, <InnerType as ::patchable::Patchable>::Patch: ::core::fmt::Debug
{
    fn patch(&mut self, patch: Self::Patch) {
        ::patchable::Patch::patch(&mut self.0, patch.0); self.1 = patch.1;
    }
}

#[derive(Clone, Debug, PartialEq)]
struct UnitOuter;

#[derive(Debug)]
pub struct UnitOuterPatch;
impl<> ::patchable::Patchable for UnitOuter<> { type Patch = UnitOuterPatch<>; }
impl<> ::core::convert::From<UnitOuter<>> for UnitOuterPatch<> {
    fn from(value: UnitOuter<>) -> Self { Self }
}
impl<> ::patchable::Patch for UnitOuter<> {
    fn patch(&mut self, _patch: Self::Patch) { }
}

#[derive(Clone, Debug, PartialEq)]
struct SkipOuter {
    value: i32,
    untouched: u32,
}

#[derive(Debug)]
pub struct SkipOuterPatch<> { value: i32 }
impl<> ::patchable::Patchable for SkipOuter<> { type Patch = SkipOuterPatch<>; }
impl<> ::core::convert::From<SkipOuter<>> for SkipOuterPatch<> {
    fn from(value: SkipOuter<>) -> Self { Self { value: value.value } }
}
impl<> ::patchable::Patch for SkipOuter<> {
    fn patch(&mut self, patch: Self::Patch) { self.value = patch.value; }
}

fn simple(name: &str) -> TypeExpr {
    TypeExpr {
        text: name.to_string(),
        kind: TypeKind::Path {
            qself: None,
            segments: vec![PathSegment { ident: name.to_string(), has_args: false, args: vec![] }],
        },
    }
}

fn field(name: Option<&str>, ty: &str, attrs: Vec<PatchableAttr>) -> FieldDecl {
    FieldDecl { name: name.map(|n| n.to_string()), ty: simple(ty), attrs }
}

fn record(name: &str, params: &[&str], shape: Shape, fields: Vec<FieldDecl>) -> RecordDecl {
    RecordDecl {
        kind: DeclKind::Struct,
        name: name.to_string(),
        params: params
            .iter()
            .map(|p| GenericParam { kind: ParamKind::Type, name: p.to_string(), decl: p.to_string() })
            .collect(),
        where_clause: None,
        shape,
        fields,
    }
}

/// What the two derives emit together, items in order.
fn expansion(d: &RecordDecl) -> String {
    format!("{} {}", derive_patchable(d, "::patchable", false, true).unwrap(), derive_patch(d, "::patchable").unwrap())
}

fn items(patch_type: &str, patchable: &str, from: &str, patch: &str) -> String {
    format!(
        "const _: () = {{ #[automatically_derived] {} #[automatically_derived] {} #[automatically_derived] {} }}; \
         const _: () = {{ #[automatically_derived] {} }};",
        patch_type, patchable, from, patch
    )
}

#[test]
fn engine_output_matches_the_items_below() {
    let inner = record("Inner", &[], Shape::Named, vec![field(Some("value"), "i32", vec![])]);
    assert_eq!(
        expansion(&inner),
        items(
            "#[derive(::core::fmt::Debug)] pub struct InnerPatch<> { value: i32 }",
            "impl<> ::patchable::Patchable for Inner<> { type Patch = InnerPatch<>; }",
            "impl<> ::core::convert::From<Inner<>> for InnerPatch<> { fn from(value: Inner<>) -> Self { Self { value: value.value } } }",
            "impl<> ::patchable::Patch for Inner<> { fn patch(&mut self, patch: Self::Patch) { self.value = patch.value; } }",
        )
    );
    let outer = record(
        "Outer",
        &["InnerType"],
        Shape::Named,
        vec![
            field(Some("inner"), "InnerType", vec![PatchableAttr::Bare]),
            field(Some("extra"), "u32", vec![]),
        ],
    );
    let w = "where InnerType: ::patchable::Patchable, <InnerType as ::patchable::Patchable>::Patch: ::core::fmt::Debug ";
    assert_eq!(
        expansion(&outer),
        items(
            &format!("#[derive(::core::fmt::Debug)] pub struct OuterPatch<InnerType> {}{{ inner: <InnerType as ::patchable::Patchable>::Patch, extra: u32 }}", w),
            &format!("impl<InnerType> ::patchable::Patchable for Outer<InnerType> {}{{ type Patch = OuterPatch<InnerType>; }}", w),
            "impl<InnerType> ::core::convert::From<Outer<InnerType>> for OuterPatch<InnerType> \
             where InnerType: ::patchable::Patchable, <InnerType as ::patchable::Patchable>::Patch: \
             ::core::convert::From<InnerType> + ::core::fmt::Debug { fn from(value: Outer<InnerType>) -> Self \
             { Self { inner: ::core::convert::From::from(value.inner), extra: value.extra } } }",
            "impl<InnerType> ::patchable::Patch for Outer<InnerType> where InnerType: ::patchable::Patch, \
             <InnerType as ::patchable::Patchable>::Patch: ::core::fmt::Debug { fn patch(&mut self, patch: Self::Patch) \
             { ::patchable::Patch::patch(&mut self.inner, patch.inner); self.extra = patch.extra; } }",
        )
    );
    let tuple = record(
        "TupleOuter",
        &["InnerType"],
        Shape::Positional,
        vec![field(None, "InnerType", vec![PatchableAttr::Bare]), field(None, "u32", vec![])],
    );
    assert_eq!(
        expansion(&tuple),
        items(
            &format!("#[derive(::core::fmt::Debug)] pub struct TupleOuterPatch<InnerType>(<InnerType as ::patchable::Patchable>::Patch, u32) {};", w),
            &format!("impl<InnerType> ::patchable::Patchable for TupleOuter<InnerType> {}{{ type Patch = TupleOuterPatch<InnerType>; }}", w),
            "impl<InnerType> ::core::convert::From<TupleOuter<InnerType>> for TupleOuterPatch<InnerType> \
             where InnerType: ::patchable::Patchable, <InnerType as ::patchable::Patchable>::Patch: \
             ::core::convert::From<InnerType> + ::core::fmt::Debug { fn from(value: TupleOuter<InnerType>) -> Self \
             { Self(::core::convert::From::from(value.0), value.1) } }",
            "impl<InnerType> ::patchable::Patch for TupleOuter<InnerType> where InnerType: ::patchable::Patch, \
             <InnerType as ::patchable::Patchable>::Patch: ::core::fmt::Debug { fn patch(&mut self, patch: Self::Patch) \
             { ::patchable::Patch::patch(&mut self.0, patch.0); self.1 = patch.1; } }",
        )
    );
    let unit = record("UnitOuter", &[], Shape::Empty, vec![]);
    assert_eq!(
        expansion(&unit),
        items(
            "#[derive(::core::fmt::Debug)] pub struct UnitOuterPatch;",
            "impl<> ::patchable::Patchable for UnitOuter<> { type Patch = UnitOuterPatch<>; }",
            "impl<> ::core::convert::From<UnitOuter<>> for UnitOuterPatch<> { fn from(value: UnitOuter<>) -> Self { Self } }",
            "impl<> ::patchable::Patch for UnitOuter<> { fn patch(&mut self, _patch: Self::Patch) { } }",
        )
    );
    let skip = record(
        "SkipOuter",
        &[],
        Shape::Named,
        vec![
            field(Some("value"), "i32", vec![]),
            field(Some("untouched"), "u32", vec![PatchableAttr::List(vec!["skip".to_string()])]),
        ],
    );
    assert_eq!(
        expansion(&skip),
        items(
            "#[derive(::core::fmt::Debug)] pub struct SkipOuterPatch<> { value: i32 }",
            "impl<> ::patchable::Patchable for SkipOuter<> { type Patch = SkipOuterPatch<>; }",
            "impl<> ::core::convert::From<SkipOuter<>> for SkipOuterPatch<> { fn from(value: SkipOuter<>) -> Self { Self { value: value.value } } }",
            "impl<> ::patchable::Patch for SkipOuter<> { fn patch(&mut self, patch: Self::Patch) { self.value = patch.value; } }",
        )
    );
}

#[test]
fn impl_from_test_from_struct_to_patch() {
    let original = Outer {
        inner: Inner { value: 42 },
        extra: 7,
    };

    let patch: <Outer<Inner> as Patchable>::Patch = original.clone().into();
    let mut target = Outer {
        inner: Inner { value: 0 },
        extra: 0,
    };

    target.patch(patch);
    assert_eq!(target, original);
}

#[test]
fn test_from_tuple_struct_to_patch() {
    let original = TupleOuter(Inner { value: 42 }, 7);
    let patch: <TupleOuter<Inner> as Patchable>::Patch = original.clone().into();
    let mut target = TupleOuter(Inner { value: 0 }, 0);

    target.patch(patch);
    assert_eq!(target, original);
}

#[test]
fn test_from_unit_struct_to_patch() {
    let patch: <UnitOuter as Patchable>::Patch = UnitOuter.into();
    let mut target = UnitOuter;

    target.patch(patch);
    assert_eq!(target, UnitOuter);
}

#[test]
fn test_from_patch_respects_skipped_fields() {
    let original = SkipOuter {
        value: 10,
        untouched: 7,
    };
    let patch: <SkipOuter as Patchable>::Patch = original.into();
    let mut target = SkipOuter {
        value: 0,
        untouched: 99,
    };

    target.patch(patch);
    assert_eq!(target.value, 10);
    assert_eq!(target.untouched, 99);
}

#[test]
fn lib_test_from_struct_to_patch() {
    let original = Outer {
        inner: Inner { value: 42 },
        extra: 7,
    };

    let patch: <Outer<Inner> as Patchable>::Patch = original.clone().into();
    let mut target = Outer {
        inner: Inner { value: 0 },
        extra: 0,
    };

    target.patch(patch);
    assert_eq!(target, original);
}
