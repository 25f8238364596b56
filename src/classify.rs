//! The field classifier: which fields take part in the patch, and how.

use vstd::prelude::*;
use crate::model::{DeclKind, EngineError, FieldDecl, GenericParam, ParamKind, PatchableAttr, RecordDecl, TypeExpr, TypeKind};
use crate::text::text_eq;

verus! {

/// What the patch does with a surviving field.
#[derive(Clone, Copy, Debug, PartialEq, Eq, Structural)]
pub enum ActionKind {
    /// The field is replaced wholesale by the patch's value.
    Keep,
    /// The field is updated with its own type's patch.
    Patch,
}

/// The action for one surviving field; `index` is its position in the
/// record's declaration, its position in the action list is its position in
/// the patch type.
#[derive(Clone, Copy, Debug, PartialEq, Eq, Structural)]
pub struct FieldAction {
    pub kind: ActionKind,
    pub index: usize,
}

/// The one accepted parameter of a `patchable` list.
pub open spec fn skip_word() -> Seq<char> {
    seq!['s', 'k', 'i', 'p']
}

/// Every parameter of the list is `skip`.
pub open spec fn all_skip(ps: Seq<String>) -> bool {
    forall|j: int| 0 <= j < ps.len() ==> (#[trigger] ps[j])@ == skip_word()
}

/// `#[patchable]` and `#[patchable(skip, ...)]` are the accepted forms; a
/// list holds no parameter but `skip`, and an empty list is an omit list.
pub open spec fn attr_valid(a: PatchableAttr) -> bool {
    match a {
        PatchableAttr::Bare => true,
        PatchableAttr::List(ps) => all_skip(ps@),
        PatchableAttr::NameValue => false,
    }
}

pub open spec fn attrs_valid(f: FieldDecl) -> bool {
    forall|i: int| 0 <= i < f.attrs@.len() ==> attr_valid(#[trigger] f.attrs@[i])
}

/// The field carries `#[patchable(skip)]`.
#[verifier::opaque]
pub open spec fn is_omitted(f: FieldDecl) -> bool {
    exists|i: int|
        0 <= i < f.attrs@.len() && (#[trigger] f.attrs@[i]) is List && attr_valid(f.attrs@[i])
}

/// The field carries `#[patchable]`.
#[verifier::opaque]
pub open spec fn is_recursed(f: FieldDecl) -> bool {
    exists|i: int| 0 <= i < f.attrs@.len() && (#[trigger] f.attrs@[i]) is Bare
}

pub open spec fn action_kind(f: FieldDecl) -> ActionKind {
    if is_recursed(f) {
        ActionKind::Patch
    } else {
        ActionKind::Keep
    }
}

/// `acts` holds the actions of the fields, in order: one per surviving field,
/// with its kind; omitted fields have none.
pub open spec fn actions_follow(fs: Seq<FieldDecl>, acts: Seq<FieldAction>) -> bool {
    &&& forall|k: int|
        0 <= k < acts.len() ==> {
            let a = #[trigger] acts[k];
            &&& a.index < fs.len()
            &&& !is_omitted(fs[a.index as int])
            &&& a.kind == action_kind(fs[a.index as int])
        }
    &&& forall|k: int, l: int|
        0 <= k < l < acts.len() ==> (#[trigger] acts[k]).index < (#[trigger] acts[l]).index
    &&& forall|j: int| #[trigger] survives(fs, j) ==> exists|k: int|
            0 <= k < acts.len() && (#[trigger] acts[k]).index == j
}

/// Field `j` exists and is not omitted.
pub open spec fn survives(fs: Seq<FieldDecl>, j: int) -> bool {
    0 <= j < fs.len() && !is_omitted(fs[j])
}

proof fn lemma_follow_step(fs: Seq<FieldDecl>, f: FieldDecl, acts: Seq<FieldAction>)
    requires
        actions_follow(fs, acts),
        forall|k: int| 0 <= k < acts.len() ==> (#[trigger] acts[k]).index < fs.len(),
        fs.len() < usize::MAX,
    ensures
        !is_omitted(f) ==> actions_follow(
            fs.push(f),
            acts.push(FieldAction { kind: action_kind(f), index: fs.len() as usize }),
        ),
        is_omitted(f) ==> actions_follow(fs.push(f), acts),
{
    let fs2 = fs.push(f);
    if !is_omitted(f) {
        let acts2 = acts.push(FieldAction { kind: action_kind(f), index: fs.len() as usize });
        assert forall|k: int| 0 <= k < acts.len() implies #[trigger] acts2[k] == acts[k] && fs2[acts[k].index as int] == fs[acts[k].index as int] by {}
        assert forall|j: int| #[trigger] survives(fs2, j) implies exists|k: int|
                0 <= k < acts2.len() && (#[trigger] acts2[k]).index == j by {
            if j < fs.len() {
                assert(fs[j] == fs2[j]);
                assert(survives(fs, j));
                let k = choose|k: int| 0 <= k < acts.len() && (#[trigger] acts[k]).index == j;
                assert(acts2[k] == acts[k]);
            } else {
                assert(acts2[acts.len() as int].index == j);
            }
        }
    } else {
        assert forall|k: int| 0 <= k < acts.len() implies fs2[(#[trigger] acts[k]).index as int] == fs[acts[k].index as int] by {}
        assert forall|j: int| #[trigger] survives(fs2, j) implies exists|k: int|
                0 <= k < acts.len() && (#[trigger] acts[k]).index == j by {
            assert(fs[j] == fs2[j]);
            assert(survives(fs, j));
        }
    }
}

/// A type written as a path (`T`, `Vec<T>`, `a::B`): the only form a
/// recursively patched field may have.
pub open spec fn is_named_type(t: TypeExpr) -> bool {
    t.kind is Path
}

/// A recursively patched field that survives must have a named type.
pub open spec fn field_shape_ok(f: FieldDecl) -> bool {
    !is_omitted(f) && is_recursed(f) ==> is_named_type(f.ty)
}

pub open spec fn no_lifetimes(ps: Seq<GenericParam>) -> bool {
    forall|i: int| 0 <= i < ps.len() ==> (#[trigger] ps[i]).kind != ParamKind::Lifetime
}

pub open spec fn all_attrs_valid(fs: Seq<FieldDecl>) -> bool {
    forall|i: int| 0 <= i < fs.len() ==> attrs_valid(#[trigger] fs[i])
}

pub open spec fn all_shapes_ok(fs: Seq<FieldDecl>) -> bool {
    forall|i: int| 0 <= i < fs.len() ==> field_shape_ok(#[trigger] fs[i])
}

/// The declaration can be transformed.
pub open spec fn accepted(d: RecordDecl) -> bool {
    &&& d.kind == DeclKind::Struct
    &&& no_lifetimes(d.params@)
    &&& all_attrs_valid(d.fields@)
    &&& all_shapes_ok(d.fields@)
}

/// The error reported for a declaration, exactly when it is not accepted:
/// the first failing check, in the order kind, parameters, attributes, shapes,
/// and within each the first offending item.
pub open spec fn reports(d: RecordDecl, e: EngineError) -> bool {
    match e {
        EngineError::NotARecord => d.kind != DeclKind::Struct,
        EngineError::BorrowedParameter { param } => {
            &&& d.kind == DeclKind::Struct
            &&& param < d.params@.len()
            &&& d.params@[param as int].kind == ParamKind::Lifetime
            &&& no_lifetimes(d.params@.take(param as int))
        },
        EngineError::AttributeSyntax { field } => {
            &&& d.kind == DeclKind::Struct
            &&& no_lifetimes(d.params@)
            &&& field < d.fields@.len()
            &&& !attrs_valid(d.fields@[field as int])
            &&& all_attrs_valid(d.fields@.take(field as int))
        },
        EngineError::RecurseTypeShape { field } => {
            &&& d.kind == DeclKind::Struct
            &&& no_lifetimes(d.params@)
            &&& all_attrs_valid(d.fields@)
            &&& field < d.fields@.len()
            &&& !field_shape_ok(d.fields@[field as int])
            &&& all_shapes_ok(d.fields@.take(field as int))
        },
    }
}

/// Whether one attribute has an accepted form.
pub fn check_attr(a: &PatchableAttr) -> (r: bool)
    ensures
        r == attr_valid(*a),
{
    match a {
        PatchableAttr::Bare => true,
        PatchableAttr::NameValue => false,
        PatchableAttr::List(ps) => {
            proof {
                reveal_strlit("skip");
            }
            assert("skip"@ == skip_word());
            let mut j: usize = 0;
            while j < ps.len()
                invariant
                    j <= ps@.len(),
                    forall|k: int| 0 <= k < j ==> (#[trigger] ps@[k])@ == skip_word(),
                    "skip"@ == skip_word(),
                    *a == PatchableAttr::List(*ps),
                decreases ps@.len() - j,
            {
                if !text_eq(ps[j].as_str(), "skip") {
                    assert(ps@[j as int]@ != skip_word());
                    assert(!all_skip(ps@));
                    return false;
                }
                j = j + 1;
            }
            true
        },
    }
}

/// Whether every `patchable` attribute of the field has an accepted form.
pub fn field_attrs_valid(f: &FieldDecl) -> (r: bool)
    ensures
        r == attrs_valid(*f),
{
    let mut i: usize = 0;
    while i < f.attrs.len()
        invariant
            i <= f.attrs@.len(),
            forall|k: int| 0 <= k < i ==> attr_valid(#[trigger] f.attrs@[k]),
        decreases f.attrs@.len() - i,
    {
        if !check_attr(&f.attrs[i]) {
            return false;
        }
        i = i + 1;
    }
    true
}

/// Whether the field is marked `#[patchable(skip)]`, and so takes no part in
/// the patch.
pub fn has_patchable_skip_attr(f: &FieldDecl) -> (r: bool)
    ensures
        r == is_omitted(*f),
{
    reveal(is_omitted);
    let mut i: usize = 0;
    while i < f.attrs.len()
        invariant
            i <= f.attrs@.len(),
            forall|k: int|
                0 <= k < i ==> !((#[trigger] f.attrs@[k]) is List && attr_valid(f.attrs@[k])),
        decreases f.attrs@.len() - i,
    {
        let a = &f.attrs[i];
        if let PatchableAttr::List(_) = a {
            if check_attr(a) {
                assert(is_omitted(*f)) by {
                    reveal(is_omitted);
                }
                return true;
            }
        }
        i = i + 1;
    }
    false
}

/// Whether the field is marked `#[patchable]`, and so is patched with its own
/// type's patch.
pub fn has_patchable_attr(f: &FieldDecl) -> (r: bool)
    ensures
        r == is_recursed(*f),
{
    reveal(is_recursed);
    let mut i: usize = 0;
    while i < f.attrs.len()
        invariant
            i <= f.attrs@.len(),
            forall|k: int| 0 <= k < i ==> !((#[trigger] f.attrs@[k]) is Bare),
        decreases f.attrs@.len() - i,
    {
        if let PatchableAttr::Bare = &f.attrs[i] {
            assert(is_recursed(*f)) by {
                reveal(is_recursed);
            }
            return true;
        }
        i = i + 1;
    }
    false
}

/// Classifies the fields of a declaration, or reports the first reason it
/// cannot be transformed.
pub fn classify_fields(d: &RecordDecl) -> (r: Result<Vec<FieldAction>, EngineError>)
    ensures
        r is Ok <==> accepted(*d),
        r matches Ok(acts) ==> actions_follow(d.fields@, acts@),
        r matches Err(e) ==> reports(*d, e),
{
    if !matches!(d.kind, DeclKind::Struct) {
        return Err(EngineError::NotARecord);
    }
    let mut p: usize = 0;
    while p < d.params.len()
        invariant
            d.kind == DeclKind::Struct,
            p <= d.params@.len(),
            no_lifetimes(d.params@.take(p as int)),
        decreases d.params@.len() - p,
    {
        if d.params[p].kind == ParamKind::Lifetime {
            return Err(EngineError::BorrowedParameter { param: p });
        }
        assert(d.params@.take(p + 1) == d.params@.take(p as int).push(d.params@[p as int]));
        p = p + 1;
    }
    assert(d.params@.take(p as int) == d.params@);
    let n = d.fields.len();
    let mut i: usize = 0;
    while i < n
        invariant
            n == d.fields@.len(),
            i <= n,
            d.kind == DeclKind::Struct,
            no_lifetimes(d.params@),
            all_attrs_valid(d.fields@.take(i as int)),
        decreases n - i,
    {
        if !field_attrs_valid(&d.fields[i]) {
            return Err(EngineError::AttributeSyntax { field: i });
        }
        assert(d.fields@.take(i + 1) == d.fields@.take(i as int).push(d.fields@[i as int]));
        i = i + 1;
    }
    assert(d.fields@.take(n as int) == d.fields@);
    let mut acts: Vec<FieldAction> = Vec::new();
    let mut i: usize = 0;
    while i < n
        invariant
            n == d.fields@.len(),
            i <= n,
            d.kind == DeclKind::Struct,
            no_lifetimes(d.params@),
            all_attrs_valid(d.fields@),
            all_shapes_ok(d.fields@.take(i as int)),
            forall|k: int| 0 <= k < acts@.len() ==> (#[trigger] acts@[k]).index < i,
            actions_follow(d.fields@.take(i as int), acts@),
        decreases n - i,
    {
        let f = &d.fields[i];
        let ghost fs = d.fields@.take(i as int);
        let ghost fs2 = d.fields@.take(i + 1);
        assert(fs2 == fs.push(d.fields@[i as int]));
        proof {
            lemma_follow_step(fs, d.fields@[i as int], acts@);
        }
        if !has_patchable_skip_attr(f) {
            let kind = if has_patchable_attr(f) {
                if let TypeKind::Path { .. } = &f.ty.kind {
                } else {
                    return Err(EngineError::RecurseTypeShape { field: i });
                }
                ActionKind::Patch
            } else {
                ActionKind::Keep
            };
            acts.push(FieldAction { kind, index: i });
        }
        assert(all_shapes_ok(fs2));
        i = i + 1;
    }
    assert(d.fields@.take(n as int) == d.fields@);
    Ok(acts)
}

} // verus!
