//! The entry points of the engine: from a record declaration to the source
//! of its companion declarations.

use vstd::prelude::*;
use vstd::string::*;
use crate::analyze::{
    Derivation, derive_record, is_retained, is_type_param, lemma_derivation_unique, lists_exactly,
    referenced,
};
use crate::classify::{accepted, reports};
use crate::emit::{
    Context, build_from_trait_impl, build_patch_struct, build_patch_trait_impl,
    build_patchable_trait_impl, convert_body, convert_value, field_types, from_impl_text,
    obligations, param_names, patch_field_decl, patch_generics, patch_impl_text, patch_type_text,
    patchable_impl_text, update_stmt,
};
use crate::model::{EngineError, RecordDecl};

verus! {

/// The path under which the support traits are reached from the record's
/// crate: `crate` inside the support crate itself, `::name` where it is a
/// dependency under `name`.
pub open spec fn crate_path_text(found: Option<Seq<char>>) -> Seq<char> {
    match found {
        None => "crate"@,
        Some(n) => "::"@ + n,
    }
}

/// The path of the support traits, from the result of looking up the support
/// crate among the dependencies of the record's crate (`None`: the record's
/// crate is the support crate itself).
pub fn use_site_crate_path(found: Option<&str>) -> (r: String)
    ensures
        r@ == crate_path_text(
            match found {
                None => None,
                Some(n) => Some(n@),
            },
        ),
{
    match found {
        None => String::from_str("crate"),
        Some(n) => {
            let mut r = String::from_str("::");
            r.append(n);
            r
        },
    }
}

/// The output of the `Patchable` derivation: the patch type, the impl that
/// links the record to it and, when asked for, the conversion into it.
pub open spec fn patchable_output(
    d: RecordDecl,
    x: Derivation,
    cp: Seq<char>,
    serde: bool,
    with_from: bool,
) -> Seq<char> {
    "const _: () = { #[automatically_derived] "@ + patch_type_text(d, x, cp, serde)
        + " #[automatically_derived] "@ + patchable_impl_text(d, x, cp) + if with_from {
        " #[automatically_derived] "@ + from_impl_text(d, x, cp)
    } else {
        Seq::empty()
    } + " };"@
}

/// The output of the `Patch` derivation: the update procedure.
pub open spec fn patch_output(d: RecordDecl, x: Derivation, cp: Seq<char>) -> Seq<char> {
    "const _: () = { #[automatically_derived] "@ + patch_impl_text(d, x, cp) + " };"@
}

/// The emitted source depends on the declaration alone.
pub proof fn lemma_output_determined(
    d: RecordDecl,
    x: Derivation,
    y: Derivation,
    cp: Seq<char>,
    serde: bool,
    with_from: bool,
)
    requires
        x.of(d),
        y.of(d),
    ensures
        patchable_output(d, x, cp, serde, with_from) == patchable_output(d, y, cp, serde, with_from),
        patch_output(d, x, cp) == patch_output(d, y, cp),
{
    lemma_derivation_unique(d, x, y);
    assert(param_names(d, x.retained@) == param_names(d, y.retained@));
    assert(patch_generics(d, x) == patch_generics(d, y));
    assert forall|ctx: Context, sd: bool| obligations(d, x, cp, ctx, sd) == obligations(d, y, cp, ctx, sd) by {
        assert(param_names(d, x.patchable@) == param_names(d, y.patchable@));
        assert(field_types(d, x.obligated_fields@) == field_types(d, y.obligated_fields@));
    }
    assert(Seq::new(x.actions@.len(), |k: int| patch_field_decl(d, x, cp, serde, k)) =~= Seq::new(
        y.actions@.len(),
        |k: int| patch_field_decl(d, y, cp, serde, k),
    ));
    assert(Seq::new(x.actions@.len(), |k: int| update_stmt(d, x, cp, k)) =~= Seq::new(
        y.actions@.len(),
        |k: int| update_stmt(d, y, cp, k),
    ));
    assert(Seq::new(x.actions@.len(), |k: int| convert_value(d, x, k)) =~= Seq::new(
        y.actions@.len(),
        |k: int| convert_value(d, y, k),
    ));
    assert(patch_type_text(d, x, cp, serde) == patch_type_text(d, y, cp, serde));
    assert(patchable_impl_text(d, x, cp) == patchable_impl_text(d, y, cp));
    assert(convert_body(d, x) == convert_body(d, y));
    assert(from_impl_text(d, x, cp) == from_impl_text(d, y, cp));
    assert(patch_impl_text(d, x, cp) == patch_impl_text(d, y, cp));
}

/// Derives the patch type of a record and links the record to it; with
/// `with_from`, also the conversion from the record into its patch. `cp` is
/// the path of the support traits, `serde` asks for a patch type that serde
/// can deserialize.
pub fn derive_patchable(d: &RecordDecl, cp: &str, serde: bool, with_from: bool) -> (r: Result<
    String,
    EngineError,
>)
    ensures
        r is Ok <==> accepted(*d),
        r matches Err(e) ==> reports(*d, e),
        r is Ok ==> exists|x: Derivation| x.of(*d),
        r matches Ok(s) ==> forall|x: Derivation|
            x.of(*d) ==> s@ == #[trigger] patchable_output(*d, x, cp@, serde, with_from),
{
    let x = match derive_record(d) {
        Ok(x) => x,
        Err(e) => return Err(e),
    };
    let mut out = String::from_str("const _: () = { #[automatically_derived] ");
    out.append(build_patch_struct(d, &x, cp, serde).as_str());
    out.append(" #[automatically_derived] ");
    out.append(build_patchable_trait_impl(d, &x, cp).as_str());
    let ghost before_from = out@;
    if with_from {
        out.append(" #[automatically_derived] ");
        out.append(build_from_trait_impl(d, &x, cp).as_str());
    }
    assert(out@ =~= before_from + if with_from {
        " #[automatically_derived] "@ + from_impl_text(*d, x, cp@)
    } else {
        Seq::empty()
    });
    out.append(" };");
    assert(out@ =~= patchable_output(*d, x, cp@, serde, with_from));
    assert forall|y: Derivation| y.of(*d) implies out@ == #[trigger] patchable_output(*d, y, cp@, serde, with_from) by {
        lemma_output_determined(*d, x, y, cp@, serde, with_from);
    }
    Ok(out)
}

/// Derives the update procedure of a record.
pub fn derive_patch(d: &RecordDecl, cp: &str) -> (r: Result<String, EngineError>)
    ensures
        r is Ok <==> accepted(*d),
        r matches Err(e) ==> reports(*d, e),
        r is Ok ==> exists|x: Derivation| x.of(*d),
        r matches Ok(s) ==> forall|x: Derivation| x.of(*d) ==> s@ == #[trigger] patch_output(*d, x, cp@),
{
    let x = match derive_record(d) {
        Ok(x) => x,
        Err(e) => return Err(e),
    };
    let mut out = String::from_str("const _: () = { #[automatically_derived] ");
    out.append(build_patch_trait_impl(d, &x, cp).as_str());
    out.append(" };");
    assert(out@ =~= patch_output(*d, x, cp@));
    assert forall|y: Derivation| y.of(*d) implies out@ == #[trigger] patch_output(*d, y, cp@) by {
        lemma_output_determined(*d, x, y, cp@, false, false);
    }
    Ok(out)
}

/// A type parameter is kept on the patch type exactly when some field that is
/// not omitted names it in its type.
pub proof fn lemma_retained_iff_referenced(d: RecordDecl, x: Derivation, i: int)
    requires
        x.of(d),
        is_type_param(d, i),
    ensures
        (exists|k: int| 0 <= k < x.retained@.len() && x.retained@[k] as int == i) <==> referenced(
            d,
            d.params@[i].name@,
        ),
{
    let p = |j: int| is_retained(d, j);
    assert(d.params@.len() == d.params.len());
    assert(lists_exactly(x.retained@, d.params@.len() as int, p));
    if exists|k: int| 0 <= k < x.retained@.len() && x.retained@[k] as int == i {
        let k = choose|k: int| 0 <= k < x.retained@.len() && x.retained@[k] as int == i;
        assert(p(x.retained@[k] as int));
    } else if p(i) {
        assert(x.retained@.contains(i as usize));
        let k = choose|k: int| 0 <= k < x.retained@.len() && x.retained@[k] == i as usize;
        assert(x.retained@[k] as int == i);
    }
}

} // verus!
