use patchable::{
    derive_patch, derive_patchable, DeclKind, FieldDecl, GenericParam, ParamKind, Patch,
    PatchableAttr, PathSegment, RecordDecl, Shape, TypeExpr, TypeKind,
};

// The items below are the engine's output for these declarations, laid out
// over several lines (with `Debug` written by its short name); the test
// `engine_output_matches_the_items_below_without_serde` holds the two
// together.

fn plus_one(x: i32) -> i32 {
    x + 1
}

#[derive(Clone, Debug, PartialEq)]
struct PlainInner {
    value: i32,
}

#[derive(Debug)]
pub struct PlainInnerPatch<> { value: i32 }
impl<> ::patchable::Patchable for PlainInner<> { type Patch = PlainInnerPatch<>; }
impl<> ::patchable::Patch for PlainInner<> {
    fn patch(&mut self, patch: Self::Patch) { self.value = patch.value; }
}

#[derive(Clone, Debug, PartialEq)]
struct PlainOuter<T> {
    inner: T,
    version: u32,
}

#[derive(Debug)]
pub struct PlainOuterPatch<T>
where T: ::patchable::Patchable, <T as ::patchable::Patchable>::Patch: ::core::fmt::Debug
{ inner: <T as ::patchable::Patchable>::Patch, version: u32 }
impl<T> ::patchable::Patchable for PlainOuter<T>
where T: ::patchable::Patchable, <T as ::patchable::Patchable>::Patch: ::core::fmt::Debug
{ type Patch = PlainOuterPatch<T>; }
impl<T> ::patchable::Patch for PlainOuter<T>
where T: ::patchable::Patch, <T as ::patchable::Patchable>::Patch: ::core::fmt::Debug
{
    fn patch(&mut self, patch: Self::Patch) {
        ::patchable::Patch::patch(&mut self.inner, patch.inner); self.version = patch.version;
    }
}

#[derive(Clone, Debug, PartialEq)]
struct DeriveOnlyStruct {
    value: i32,
    sticky: u32,
}

#[derive(Debug)]
pub struct DeriveOnlyStructPatch<> { value: i32 }
impl<> ::patchable::Patchable for DeriveOnlyStruct<> { type Patch = DeriveOnlyStructPatch<>; }
impl<> ::patchable::Patch for DeriveOnlyStruct<> {
    fn patch(&mut self, patch: Self::Patch) { self.value = patch.value; }
}

#[derive(Clone, Debug)]
struct AllSkipped {
    marker: fn(i32) -> i32,
}

#[derive(Debug)]
pub struct AllSkippedPatch<> {  }
impl<> ::patchable::Patchable for AllSkipped<> { type Patch = AllSkippedPatch<>; }
impl<> ::patchable::Patch for AllSkipped<> {
    fn patch(&mut self, _patch: Self::Patch) { }
}

#[derive(Clone, Debug, PartialEq)]
struct FieldWithNonPatchableAttrBeforeSkip {
    value: i32,
    #[allow(dead_code)]
    sticky: u32,
}

#[derive(Debug)]
pub struct FieldWithNonPatchableAttrBeforeSkipPatch<> { value: i32 }
impl<> ::patchable::Patchable for FieldWithNonPatchableAttrBeforeSkip<> {
    type Patch = FieldWithNonPatchableAttrBeforeSkipPatch<>;
}
impl<> ::patchable::Patch for FieldWithNonPatchableAttrBeforeSkip<> {
    fn patch(&mut self, patch: Self::Patch) { self.value = patch.value; }
}

fn simple(name: &str) -> TypeExpr {
    TypeExpr {
        text: name.to_string(),
        kind: TypeKind::Path {
            qself: None,
            segments: vec![PathSegment { ident: name.to_string(), has_args: false, args: vec![] }],
        },
    }
}

fn field(name: &str, ty: TypeExpr, attrs: Vec<PatchableAttr>) -> FieldDecl {
    FieldDecl { name: Some(name.to_string()), ty, attrs }
}

fn skip() -> PatchableAttr {
    PatchableAttr::List(vec!["skip".to_string()])
}

fn record(name: &str, params: &[&str], shape: Shape, fields: Vec<FieldDecl>) -> RecordDecl {
    RecordDecl {
        kind: DeclKind::Struct,
        name: name.to_string(),
        params: params
            .iter()
            .map(|p| GenericParam { kind: ParamKind::Type, name: p.to_string(), decl: p.to_string() })
            .collect(),
        where_clause: None,
        shape,
        fields,
    }
}

/// What the two derives emit together, items in order.
fn expansion(d: &RecordDecl) -> String {
    format!("{} {}", derive_patchable(d, "::patchable", false, false).unwrap(), derive_patch(d, "::patchable").unwrap())
}

fn items(patch_type: &str, patchable: &str, patch: &str) -> String {
    format!(
        "const _: () = {{ #[automatically_derived] {} #[automatically_derived] {} }}; \
         const _: () = {{ #[automatically_derived] {} }};",
        patch_type, patchable, patch
    )
}

/// The name the engine gives the patch type of a record named `name`.
fn derived_patch_name(name: &str) -> String {
    let d = record(name, &[], Shape::Empty, vec![]);
    let out = derive_patchable(&d, "::patchable", false, false).unwrap();
    let start = out.find("pub struct ").unwrap() + "pub struct ".len();
    let end = out[start..].find(';').unwrap() + start;
    out[start..end].to_string()
}

#[test]
fn engine_output_matches_the_items_below_without_serde() {
    let inner = record("PlainInner", &[], Shape::Named, vec![field("value", simple("i32"), vec![])]);
    assert_eq!(
        expansion(&inner),
        items(
            "#[derive(::core::fmt::Debug)] pub struct PlainInnerPatch<> { value: i32 }",
            "impl<> ::patchable::Patchable for PlainInner<> { type Patch = PlainInnerPatch<>; }",
            "impl<> ::patchable::Patch for PlainInner<> { fn patch(&mut self, patch: Self::Patch) { self.value = patch.value; } }",
        )
    );
    let outer = record(
        "PlainOuter",
        &["T"],
        Shape::Named,
        vec![field("inner", simple("T"), vec![PatchableAttr::Bare]), field("version", simple("u32"), vec![])],
    );
    assert_eq!(
        expansion(&outer),
        items(
            "#[derive(::core::fmt::Debug)] pub struct PlainOuterPatch<T> where T: ::patchable::Patchable, \
             <T as ::patchable::Patchable>::Patch: ::core::fmt::Debug \
             { inner: <T as ::patchable::Patchable>::Patch, version: u32 }",
            "impl<T> ::patchable::Patchable for PlainOuter<T> where T: ::patchable::Patchable, \
             <T as ::patchable::Patchable>::Patch: ::core::fmt::Debug { type Patch = PlainOuterPatch<T>; }",
            "impl<T> ::patchable::Patch for PlainOuter<T> where T: ::patchable::Patch, \
             <T as ::patchable::Patchable>::Patch: ::core::fmt::Debug { fn patch(&mut self, patch: Self::Patch) \
             { ::patchable::Patch::patch(&mut self.inner, patch.inner); self.version = patch.version; } }",
        )
    );
    let derive_only = record(
        "DeriveOnlyStruct",
        &[],
        Shape::Named,
        vec![field("value", simple("i32"), vec![]), field("sticky", simple("u32"), vec![skip()])],
    );
    assert_eq!(
        expansion(&derive_only),
        items(
            "#[derive(::core::fmt::Debug)] pub struct DeriveOnlyStructPatch<> { value: i32 }",
            "impl<> ::patchable::Patchable for DeriveOnlyStruct<> { type Patch = DeriveOnlyStructPatch<>; }",
            "impl<> ::patchable::Patch for DeriveOnlyStruct<> { fn patch(&mut self, patch: Self::Patch) { self.value = patch.value; } }",
        )
    );
    let fn_type = TypeExpr {
        text: "fn(i32) -> i32".to_string(),
        kind: TypeKind::Other { parts: vec![simple("i32"), simple("i32")] },
    };
    let all_skipped = record("AllSkipped", &[], Shape::Named, vec![field("marker", fn_type, vec![skip()])]);
    assert_eq!(
        expansion(&all_skipped),
        items(
            "#[derive(::core::fmt::Debug)] pub struct AllSkippedPatch<> {  }",
            "impl<> ::patchable::Patchable for AllSkipped<> { type Patch = AllSkippedPatch<>; }",
            "impl<> ::patchable::Patch for AllSkipped<> { fn patch(&mut self, _patch: Self::Patch) { } }",
        )
    );
    let with_attr = record(
        "FieldWithNonPatchableAttrBeforeSkip",
        &[],
        Shape::Named,
        vec![field("value", simple("i32"), vec![]), field("sticky", simple("u32"), vec![skip()])],
    );
    assert_eq!(
        expansion(&with_attr),
        items(
            "#[derive(::core::fmt::Debug)] pub struct FieldWithNonPatchableAttrBeforeSkipPatch<> { value: i32 }",
            "impl<> ::patchable::Patchable for FieldWithNonPatchableAttrBeforeSkip<> \
             { type Patch = FieldWithNonPatchableAttrBeforeSkipPatch<>; }",
            "impl<> ::patchable::Patch for FieldWithNonPatchableAttrBeforeSkip<> \
             { fn patch(&mut self, patch: Self::Patch) { self.value = patch.value; } }",
        )
    );
}

#[test]
fn test_patch_methods_are_generated_without_serde() {
    let _: fn(
        &mut PlainOuter<PlainInner>,
        <PlainOuter<PlainInner> as patchable::Patchable>::Patch,
    ) = <PlainOuter<PlainInner> as patchable::Patch>::patch;

    let _: fn(&mut DeriveOnlyStruct, <DeriveOnlyStruct as patchable::Patchable>::Patch) =
        <DeriveOnlyStruct as patchable::Patch>::patch;

    let _: fn(&mut AllSkipped, <AllSkipped as patchable::Patchable>::Patch) =
        <AllSkipped as patchable::Patch>::patch;

    let outer_patch_name = derived_patch_name("PlainOuter");
    let derive_patch_name = derived_patch_name("DeriveOnlyStruct");
    assert!(outer_patch_name.contains("PlainOuter"));
    assert!(derive_patch_name.contains("DeriveOnlyStruct"));

    let value = AllSkipped { marker: plus_one };
    assert_eq!((value.marker)(1), 2);
}

#[test]
fn test_patchable_skip_works_with_non_patchable_field_attribute() {
    let _: fn(
        &mut FieldWithNonPatchableAttrBeforeSkip,
        <FieldWithNonPatchableAttrBeforeSkip as patchable::Patchable>::Patch,
    ) = <FieldWithNonPatchableAttrBeforeSkip as patchable::Patch>::patch;
}

#[test]
fn plain_outer_patch_updates_nested_and_copied_fields() {
    let mut target = PlainOuter { inner: PlainInner { value: 1 }, version: 1 };
    let patch = PlainOuterPatch::<PlainInner> { inner: PlainInnerPatch { value: 5 }, version: 2 };
    target.patch(patch);
    assert_eq!(target, PlainOuter { inner: PlainInner { value: 5 }, version: 2 });
    let mut skip = FieldWithNonPatchableAttrBeforeSkip { value: 1, sticky: 9 };
    skip.patch(FieldWithNonPatchableAttrBeforeSkipPatch { value: 3 });
    assert_eq!(skip, FieldWithNonPatchableAttrBeforeSkip { value: 3, sticky: 9 });
    let mut d = DeriveOnlyStruct { value: 0, sticky: 4 };
    d.patch(DeriveOnlyStructPatch { value: 8 });
    assert_eq!(d, DeriveOnlyStruct { value: 8, sticky: 4 });
}
