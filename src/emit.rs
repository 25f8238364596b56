//! The emitters: the source text of the patch type, of the declaration that
//! links the record to it, of the update procedure and of the conversion.

use vstd::prelude::*;
use vstd::string::*;
use crate::analyze::Derivation;
use crate::classify::{ActionKind, is_omitted};
use crate::semantics::proc_of;
use crate::model::{RecordDecl, Shape, WhereClause};
use crate::text::{decimal, join, lemma_views_push, push_decimal, push_joined, views};

verus! {

/// The places where the obligations of the patch type are stated.
#[derive(Clone, Copy, Debug, PartialEq, Eq, Structural)]
pub enum Context {
    /// The declaration of the patch type.
    PatchType,
    /// The impl of `Patchable` for the record.
    PatchableImpl,
    /// The impl of `Patch` for the record.
    PatchImpl,
    /// The impl of `From<record>` for the patch type.
    FromImpl,
}

pub open spec fn param_names(d: RecordDecl, idx: Seq<usize>) -> Seq<Seq<char>> {
    Seq::new(idx.len(), |k: int| d.params@[idx[k] as int].name@)
}

pub open spec fn field_types(d: RecordDecl, idx: Seq<usize>) -> Seq<Seq<char>> {
    Seq::new(idx.len(), |k: int| d.fields@[idx[k] as int].ty.text@)
}

/// Each subject `s` as `a s b`.
pub open spec fn wrapped(subs: Seq<Seq<char>>, a: Seq<char>, b: Seq<char>) -> Seq<Seq<char>> {
    Seq::new(subs.len(), |k: int| a + subs[k] + b)
}

/// Each subject `s` as `a s b s c`.
pub open spec fn wrapped2(subs: Seq<Seq<char>>, a: Seq<char>, b: Seq<char>, c: Seq<char>) -> Seq<
    Seq<char>,
> {
    Seq::new(subs.len(), |k: int| a + subs[k] + b + subs[k] + c)
}

/// `<a, b, c>`
pub open spec fn angled(items: Seq<Seq<char>>) -> Seq<char> {
    "<"@ + join(items, ", "@) + ">"@
}

/// The generics of the record's impls, bounds included.
pub open spec fn impl_generics(d: RecordDecl) -> Seq<char> {
    angled(Seq::new(d.params@.len(), |i: int| d.params@[i].decl@))
}

/// The generic arguments of the record in a use of it.
pub open spec fn type_generics(d: RecordDecl) -> Seq<char> {
    angled(Seq::new(d.params@.len(), |i: int| d.params@[i].name@))
}

/// The generic arguments of the patch type: the retained parameters.
pub open spec fn patch_generics(d: RecordDecl, x: Derivation) -> Seq<char> {
    angled(param_names(d, x.retained@))
}

/// `<T as path::Patchable>::Patch` for the subject `T`.
pub open spec fn patch_of(cp: Seq<char>, ty: Seq<char>) -> Seq<char> {
    "<"@ + ty + " as "@ + cp + "::Patchable>::Patch"@
}

/// The predicates that the derivation adds in context `ctx`.
pub open spec fn obligations(
    d: RecordDecl,
    x: Derivation,
    cp: Seq<char>,
    ctx: Context,
    serde: bool,
) -> Seq<Seq<char>> {
    let ps = param_names(d, x.patchable@);
    let ts = field_types(d, x.obligated_fields@);
    let patchable = ": "@ + cp + "::Patchable"@;
    let debug = " as "@ + cp + "::Patchable>::Patch: ::core::fmt::Debug"@;
    let bound = match ctx {
        Context::PatchImpl => ": "@ + cp + "::Patch"@,
        _ => patchable,
    };
    let own = match ctx {
        Context::FromImpl => wrapped2(
            ps,
            "<"@,
            " as "@ + cp + "::Patchable>::Patch: ::core::convert::From<"@,
            "> + ::core::fmt::Debug"@,
        ) + wrapped2(
            ts,
            "<"@,
            " as "@ + cp + "::Patchable>::Patch: ::core::convert::From<"@,
            "> + ::core::fmt::Debug"@,
        ),
        _ => wrapped(ps, "<"@, debug) + wrapped(ts, "<"@, debug),
    };
    wrapped(ps, Seq::empty(), bound) + wrapped(ts, Seq::empty(), bound) + own + if serde && ctx
        == Context::PatchType {
        wrapped(ts, "<"@, " as "@ + cp + "::Patchable>::Patch: ::serde::de::DeserializeOwned"@)
    } else {
        Seq::empty()
    }
}

/// The `where` clause: the record's own predicates, kept as they are, then
/// the new ones.
pub open spec fn where_text(w: Option<WhereClause>, new: Seq<Seq<char>>) -> Seq<char> {
    match w {
        None => if new.len() == 0 {
            Seq::empty()
        } else {
            "where "@ + join(new, ", "@) + " "@
        },
        Some(c) => "where "@ + join(views(c.predicates@) + new, ", "@) + " "@,
    }
}

fn names_at(d: &RecordDecl, idx: &Vec<usize>) -> (r: Vec<String>)
    requires
        forall|k: int| 0 <= k < idx@.len() ==> (#[trigger] idx@[k]) < d.params@.len(),
    ensures
        views(r@) == param_names(*d, idx@),
{
    let mut r: Vec<String> = Vec::new();
    let mut k: usize = 0;
    while k < idx.len()
        invariant
            k <= idx@.len(),
            forall|j: int| 0 <= j < idx@.len() ==> (#[trigger] idx@[j]) < d.params@.len(),
            views(r@) == param_names(*d, idx@.take(k as int)),
        decreases idx@.len() - k,
    {
        let ghost old_r = r@;
        let n = d.params[idx[k]].name.clone();
        r.push(n);
        proof {
            lemma_views_push(old_r, n);
            assert(param_names(*d, idx@.take(k + 1)) =~= param_names(*d, idx@.take(k as int)).push(n@));
        }
        k = k + 1;
    }
    assert(idx@.take(k as int) =~= idx@);
    r
}

fn types_at(d: &RecordDecl, idx: &Vec<usize>) -> (r: Vec<String>)
    requires
        forall|k: int| 0 <= k < idx@.len() ==> (#[trigger] idx@[k]) < d.fields@.len(),
    ensures
        views(r@) == field_types(*d, idx@),
{
    let mut r: Vec<String> = Vec::new();
    let mut k: usize = 0;
    while k < idx.len()
        invariant
            k <= idx@.len(),
            forall|j: int| 0 <= j < idx@.len() ==> (#[trigger] idx@[j]) < d.fields@.len(),
            views(r@) == field_types(*d, idx@.take(k as int)),
        decreases idx@.len() - k,
    {
        let ghost old_r = r@;
        let t = d.fields[idx[k]].ty.text.clone();
        r.push(t);
        proof {
            lemma_views_push(old_r, t);
            assert(field_types(*d, idx@.take(k + 1)) =~= field_types(*d, idx@.take(k as int)).push(t@));
        }
        k = k + 1;
    }
    assert(idx@.take(k as int) =~= idx@);
    r
}

/// Appends `a s b` for each subject `s`, or `a s b s c` when `c` is given.
fn push_wrapped(out: &mut Vec<String>, subs: &Vec<String>, a: &str, b: &str, c: Option<&str>)
    ensures
        views(final(out)@) == views(old(out)@) + match c {
            None => wrapped(views(subs@), a@, b@),
            Some(c) => wrapped2(views(subs@), a@, b@, c@),
        },
{
    let ghost start = views(out@);
    let ghost all = match c {
        None => wrapped(views(subs@), a@, b@),
        Some(c) => wrapped2(views(subs@), a@, b@, c@),
    };
    let mut k: usize = 0;
    while k < subs.len()
        invariant
            k <= subs@.len(),
            all == match c {
                None => wrapped(views(subs@), a@, b@),
                Some(c) => wrapped2(views(subs@), a@, b@, c@),
            },
            views(out@) == start + all.take(k as int),
        decreases subs@.len() - k,
    {
        let mut item = String::from_str(a);
        item.append(subs[k].as_str());
        item.append(b);
        match c {
            None => {},
            Some(c) => {
                item.append(subs[k].as_str());
                item.append(c);
            },
        }
        let ghost old_out = out@;
        proof {
            assert(item@ == all[k as int]);
        }
        out.push(item);
        proof {
            lemma_views_push(old_out, item);
            assert(all.take(k + 1) =~= all.take(k as int).push(item@));
            assert(views(out@) =~= start + all.take(k + 1));
        }
        k = k + 1;
    }
    assert(all.take(k as int) =~= all);
}

/// The predicates that the derivation adds in context `ctx`.
fn obligation_list(d: &RecordDecl, x: &Derivation, cp: &str, ctx: Context, serde: bool) -> (r: Vec<
    String,
>)
    requires
        x.of(*d),
    ensures
        views(r@) == obligations(*d, *x, cp@, ctx, serde),
{
    let ps = names_at(d, &x.patchable);
    let ts = types_at(d, &x.obligated_fields);
    let mut bound = String::from_str(": ");
    bound.append(cp);
    match ctx {
        Context::PatchImpl => bound.append("::Patch"),
        _ => bound.append("::Patchable"),
    }
    let mut r: Vec<String> = Vec::new();
    assert(views(r@) =~= Seq::<Seq<char>>::empty());
    push_wrapped(&mut r, &ps, "", bound.as_str(), None);
    push_wrapped(&mut r, &ts, "", bound.as_str(), None);
    match ctx {
        Context::FromImpl => {
            let mut b = String::from_str(" as ");
            b.append(cp);
            b.append("::Patchable>::Patch: ::core::convert::From<");
            push_wrapped(&mut r, &ps, "<", b.as_str(), Some("> + ::core::fmt::Debug"));
            push_wrapped(&mut r, &ts, "<", b.as_str(), Some("> + ::core::fmt::Debug"));
        },
        _ => {
            let mut b = String::from_str(" as ");
            b.append(cp);
            b.append("::Patchable>::Patch: ::core::fmt::Debug");
            push_wrapped(&mut r, &ps, "<", b.as_str(), None);
            push_wrapped(&mut r, &ts, "<", b.as_str(), None);
        },
    }
    if serde && ctx == Context::PatchType {
        let mut b = String::from_str(" as ");
        b.append(cp);
        b.append("::Patchable>::Patch: ::serde::de::DeserializeOwned");
        push_wrapped(&mut r, &ts, "<", b.as_str(), None);
    }
    proof {
        reveal_strlit("");
        assert(""@ =~= Seq::<char>::empty());
    }
    assert(views(r@) =~= obligations(*d, *x, cp@, ctx, serde));
    r
}

/// Appends the `where` clause of context `ctx`.
fn push_where(out: &mut String, d: &RecordDecl, x: &Derivation, cp: &str, ctx: Context, serde: bool)
    requires
        x.of(*d),
    ensures
        final(out)@ == old(out)@ + where_text(d.where_clause, obligations(*d, *x, cp@, ctx, serde)),
{
    let ghost start = out@;
    let new = obligation_list(d, x, cp, ctx, serde);
    match &d.where_clause {
        None => {
            if new.len() > 0 {
                out.append("where ");
                push_joined(out, &new, ", ");
                out.append(" ");
            }
        },
        Some(c) => {
            let mut all: Vec<String> = Vec::new();
            let mut i: usize = 0;
            while i < c.predicates.len()
                invariant
                    i <= c.predicates@.len(),
                    views(all@) == views(c.predicates@.take(i as int)),
                decreases c.predicates@.len() - i,
            {
                let ghost old_all = all@;
                let p = c.predicates[i].clone();
                all.push(p);
                proof {
                    lemma_views_push(old_all, p);
                    lemma_views_push(c.predicates@.take(i as int), p);
                    assert(c.predicates@.take(i + 1) =~= c.predicates@.take(i as int).push(p));
                }
                i = i + 1;
            }
            assert(c.predicates@.take(i as int) =~= c.predicates@);
            let mut j: usize = 0;
            while j < new.len()
                invariant
                    j <= new@.len(),
                    views(all@) == views(c.predicates@) + views(new@.take(j as int)),
                decreases new@.len() - j,
            {
                let ghost old_all = all@;
                let p = new[j].clone();
                all.push(p);
                proof {
                    lemma_views_push(old_all, p);
                    lemma_views_push(new@.take(j as int), p);
                    assert(new@.take(j + 1) =~= new@.take(j as int).push(p));
                    assert(views(all@) =~= views(c.predicates@) + views(new@.take(j + 1)));
                }
                j = j + 1;
            }
            assert(new@.take(j as int) =~= new@);
            out.append("where ");
            push_joined(out, &all, ", ");
            out.append(" ");
        },
    }
    assert(out@ =~= start + where_text(d.where_clause, obligations(*d, *x, cp@, ctx, serde)));
}

/// How field `f` is named in a use: its name, or its position.
pub open spec fn member(d: RecordDecl, f: int) -> Seq<char> {
    match d.fields@[f].name {
        Some(n) => n@,
        None => decimal(f as nat),
    }
}

/// How the patch names the slot of action `k`: the field's name, or the
/// slot's own position, which skips the omitted fields.
pub open spec fn patch_member(d: RecordDecl, x: Derivation, k: int) -> Seq<char> {
    match d.fields@[x.actions@[k].index as int].name {
        Some(n) => n@,
        None => decimal(k as nat),
    }
}

/// `name: ` before a value of a named field, nothing for a positional one.
pub open spec fn label(d: RecordDecl, f: int) -> Seq<char> {
    match d.fields@[f].name {
        Some(n) => n@ + ": "@,
        None => Seq::empty(),
    }
}

/// The declaration of the slot of action `k` in the patch type.
pub open spec fn patch_field_decl(d: RecordDecl, x: Derivation, cp: Seq<char>, serde: bool, k: int) -> Seq<
    char,
> {
    let a = x.actions@[k];
    let ty = d.fields@[a.index as int].ty.text@;
    let attr = if serde && a.kind == ActionKind::Patch {
        "#[serde(bound(deserialize = \""@ + patch_of(cp, ty) + ": ::serde::de::DeserializeOwned\"))] "@
    } else {
        Seq::empty()
    };
    let t = if a.kind == ActionKind::Keep {
        ty
    } else {
        patch_of(cp, ty)
    };
    attr + label(d, a.index as int) + t
}

/// The statement of the update procedure for action `k`.
pub open spec fn update_stmt(d: RecordDecl, x: Derivation, cp: Seq<char>, k: int) -> Seq<char> {
    let a = x.actions@[k];
    if a.kind == ActionKind::Keep {
        "self."@ + member(d, a.index as int) + " = patch."@ + patch_member(d, x, k) + "; "@
    } else {
        cp + "::Patch::patch(&mut self."@ + member(d, a.index as int) + ", patch."@ + patch_member(
            d,
            x,
            k,
        ) + "); "@
    }
}

/// The value of the slot of action `k` in the conversion.
pub open spec fn convert_value(d: RecordDecl, x: Derivation, k: int) -> Seq<char> {
    let a = x.actions@[k];
    let v = if a.kind == ActionKind::Keep {
        "value."@ + member(d, a.index as int)
    } else {
        "::core::convert::From::from(value."@ + member(d, a.index as int) + ")"@
    };
    label(d, a.index as int) + v
}

fn push_member(out: &mut String, d: &RecordDecl, f: usize)
    requires
        f < d.fields@.len(),
    ensures
        final(out)@ == old(out)@ + member(*d, f as int),
{
    match &d.fields[f].name {
        Some(n) => out.append(n.as_str()),
        None => push_decimal(out, f),
    }
}

fn push_label(out: &mut String, d: &RecordDecl, f: usize)
    requires
        f < d.fields@.len(),
    ensures
        final(out)@ == old(out)@ + label(*d, f as int),
{
    match &d.fields[f].name {
        Some(n) => {
            out.append(n.as_str());
            out.append(": ");
        },
        None => {
            assert(out@ =~= out@ + Seq::<char>::empty());
        },
    }
}

fn push_patch_of(out: &mut String, cp: &str, ty: &str)
    ensures
        final(out)@ == old(out)@ + patch_of(cp@, ty@),
{
    let ghost start = out@;
    out.append("<");
    out.append(ty);
    out.append(" as ");
    out.append(cp);
    out.append("::Patchable>::Patch");
    assert(out@ =~= start + patch_of(cp@, ty@));
}

/// The items of all actions, built by `item`, in order.
fn field_decls(d: &RecordDecl, x: &Derivation, cp: &str, serde: bool) -> (r: Vec<String>)
    requires
        x.of(*d),
    ensures
        views(r@) == Seq::new(x.actions@.len(), |k: int| patch_field_decl(*d, *x, cp@, serde, k)),
{
    let ghost all = Seq::new(x.actions@.len(), |k: int| patch_field_decl(*d, *x, cp@, serde, k));
    let mut r: Vec<String> = Vec::new();
    let mut k: usize = 0;
    while k < x.actions.len()
        invariant
            x.of(*d),
            k <= x.actions@.len(),
            all == Seq::new(x.actions@.len(), |k: int| patch_field_decl(*d, *x, cp@, serde, k)),
            views(r@) == all.take(k as int),
        decreases x.actions@.len() - k,
    {
        let a = x.actions[k];
        assert(a.index < d.fields@.len());
        let ty = d.fields[a.index].ty.text.as_str();
        let mut item = String::new();
        if serde && a.kind == ActionKind::Patch {
            item.append("#[serde(bound(deserialize = \"");
            push_patch_of(&mut item, cp, ty);
            item.append(": ::serde::de::DeserializeOwned\"))] ");
        }
        push_label(&mut item, d, a.index);
        if a.kind == ActionKind::Keep {
            item.append(ty);
        } else {
            push_patch_of(&mut item, cp, ty);
        }
        assert(item@ =~= all[k as int]);
        let ghost old_r = r@;
        r.push(item);
        proof {
            lemma_views_push(old_r, item);
            assert(all.take(k + 1) =~= all.take(k as int).push(item@));
        }
        k = k + 1;
    }
    assert(all.take(k as int) =~= all);
    r
}

fn push_patch_member(out: &mut String, d: &RecordDecl, x: &Derivation, k: usize)
    requires
        x.of(*d),
        k < x.actions@.len(),
    ensures
        final(out)@ == old(out)@ + patch_member(*d, *x, k as int),
{
    let f = x.actions[k].index;
    match &d.fields[f].name {
        Some(n) => out.append(n.as_str()),
        None => push_decimal(out, k),
    }
}

fn update_stmts(d: &RecordDecl, x: &Derivation, cp: &str) -> (r: Vec<String>)
    requires
        x.of(*d),
    ensures
        views(r@) == Seq::new(x.actions@.len(), |k: int| update_stmt(*d, *x, cp@, k)),
{
    let ghost all = Seq::new(x.actions@.len(), |k: int| update_stmt(*d, *x, cp@, k));
    let mut r: Vec<String> = Vec::new();
    let mut k: usize = 0;
    while k < x.actions.len()
        invariant
            x.of(*d),
            k <= x.actions@.len(),
            all == Seq::new(x.actions@.len(), |k: int| update_stmt(*d, *x, cp@, k)),
            views(r@) == all.take(k as int),
        decreases x.actions@.len() - k,
    {
        let a = x.actions[k];
        assert(a.index < d.fields@.len());
        let mut item = String::new();
        if a.kind == ActionKind::Keep {
            item.append("self.");
            push_member(&mut item, d, a.index);
            item.append(" = patch.");
            push_patch_member(&mut item, d, x, k);
            item.append("; ");
        } else {
            item.append(cp);
            item.append("::Patch::patch(&mut self.");
            push_member(&mut item, d, a.index);
            item.append(", patch.");
            push_patch_member(&mut item, d, x, k);
            item.append("); ");
        }
        assert(item@ =~= all[k as int]);
        let ghost old_r = r@;
        r.push(item);
        proof {
            lemma_views_push(old_r, item);
            assert(all.take(k + 1) =~= all.take(k as int).push(item@));
        }
        k = k + 1;
    }
    assert(all.take(k as int) =~= all);
    r
}

fn convert_values(d: &RecordDecl, x: &Derivation) -> (r: Vec<String>)
    requires
        x.of(*d),
    ensures
        views(r@) == Seq::new(x.actions@.len(), |k: int| convert_value(*d, *x, k)),
{
    let ghost all = Seq::new(x.actions@.len(), |k: int| convert_value(*d, *x, k));
    let mut r: Vec<String> = Vec::new();
    let mut k: usize = 0;
    while k < x.actions.len()
        invariant
            x.of(*d),
            k <= x.actions@.len(),
            all == Seq::new(x.actions@.len(), |k: int| convert_value(*d, *x, k)),
            views(r@) == all.take(k as int),
        decreases x.actions@.len() - k,
    {
        let a = x.actions[k];
        assert(a.index < d.fields@.len());
        let mut item = String::new();
        push_label(&mut item, d, a.index);
        if a.kind == ActionKind::Keep {
            item.append("value.");
            push_member(&mut item, d, a.index);
        } else {
            item.append("::core::convert::From::from(value.");
            push_member(&mut item, d, a.index);
            item.append(")");
        }
        assert(item@ =~= all[k as int]);
        let ghost old_r = r@;
        r.push(item);
        proof {
            lemma_views_push(old_r, item);
            assert(all.take(k + 1) =~= all.take(k as int).push(item@));
        }
        k = k + 1;
    }
    assert(all.take(k as int) =~= all);
    r
}

fn push_angled(out: &mut String, items: &Vec<String>)
    ensures
        final(out)@ == old(out)@ + angled(views(items@)),
{
    let ghost start = out@;
    out.append("<");
    push_joined(out, items, ", ");
    out.append(">");
    assert(out@ =~= start + angled(views(items@)));
}

fn push_impl_generics(out: &mut String, d: &RecordDecl)
    ensures
        final(out)@ == old(out)@ + impl_generics(*d),
{
    let mut items: Vec<String> = Vec::new();
    let mut i: usize = 0;
    while i < d.params.len()
        invariant
            i <= d.params@.len(),
            views(items@) == Seq::new(i as nat, |j: int| d.params@[j].decl@),
        decreases d.params@.len() - i,
    {
        let ghost old_items = items@;
        let p = d.params[i].decl.clone();
        items.push(p);
        proof {
            lemma_views_push(old_items, p);
            assert(views(items@) =~= Seq::new((i + 1) as nat, |j: int| d.params@[j].decl@));
        }
        i = i + 1;
    }
    push_angled(out, &items);
}

fn push_type_generics(out: &mut String, d: &RecordDecl)
    ensures
        final(out)@ == old(out)@ + type_generics(*d),
{
    let mut items: Vec<String> = Vec::new();
    let mut i: usize = 0;
    while i < d.params.len()
        invariant
            i <= d.params@.len(),
            views(items@) == Seq::new(i as nat, |j: int| d.params@[j].name@),
        decreases d.params@.len() - i,
    {
        let ghost old_items = items@;
        let p = d.params[i].name.clone();
        items.push(p);
        proof {
            lemma_views_push(old_items, p);
            assert(views(items@) =~= Seq::new((i + 1) as nat, |j: int| d.params@[j].name@));
        }
        i = i + 1;
    }
    push_angled(out, &items);
}

fn push_patch_generics(out: &mut String, d: &RecordDecl, x: &Derivation)
    requires
        x.of(*d),
    ensures
        final(out)@ == old(out)@ + patch_generics(*d, *x),
{
    let names = names_at(d, &x.retained);
    push_angled(out, &names);
}

/// The declaration of the patch type.
pub open spec fn patch_type_text(d: RecordDecl, x: Derivation, cp: Seq<char>, serde: bool) -> Seq<
    char,
> {
    let derive = if serde {
        "#[derive(::core::fmt::Debug, ::serde::Deserialize)] "@
    } else {
        "#[derive(::core::fmt::Debug)] "@
    };
    let head = derive + "pub struct "@ + d.name@ + "Patch"@;
    let fields = join(
        Seq::new(x.actions@.len(), |k: int| patch_field_decl(d, x, cp, serde, k)),
        ", "@,
    );
    let wh = where_text(d.where_clause, obligations(d, x, cp, Context::PatchType, serde));
    match d.shape {
        Shape::Named => head + patch_generics(d, x) + " "@ + wh + "{ "@ + fields + " }"@,
        Shape::Positional => head + patch_generics(d, x) + "("@ + fields + ") "@ + wh + ";"@,
        Shape::Empty => head + ";"@,
    }
}

/// The impl that links the record to its patch type.
pub open spec fn patchable_impl_text(d: RecordDecl, x: Derivation, cp: Seq<char>) -> Seq<char> {
    "impl"@ + impl_generics(d) + " "@ + cp + "::Patchable for "@ + d.name@ + type_generics(d) + " "@
        + where_text(d.where_clause, obligations(d, x, cp, Context::PatchableImpl, false))
        + "{ type Patch = "@ + d.name@ + "Patch"@ + patch_generics(d, x) + "; }"@
}

/// The impl of the update procedure.
pub open spec fn patch_impl_text(d: RecordDecl, x: Derivation, cp: Seq<char>) -> Seq<char> {
    let param = if x.actions@.len() == 0 {
        "_patch"@
    } else {
        "patch"@
    };
    "impl"@ + impl_generics(d) + " "@ + cp + "::Patch for "@ + d.name@ + type_generics(d) + " "@
        + where_text(d.where_clause, obligations(d, x, cp, Context::PatchImpl, false))
        + "{ fn patch(&mut self, "@ + param + ": Self::Patch) { "@ + join(
        Seq::new(x.actions@.len(), |k: int| update_stmt(d, x, cp, k)),
        Seq::empty(),
    ) + "} }"@
}

/// The body of the conversion.
pub open spec fn convert_body(d: RecordDecl, x: Derivation) -> Seq<char> {
    let values = join(Seq::new(x.actions@.len(), |k: int| convert_value(d, x, k)), ", "@);
    match d.shape {
        Shape::Named => "Self { "@ + values + " }"@,
        Shape::Positional => "Self("@ + values + ")"@,
        Shape::Empty => "Self"@,
    }
}

/// The impl of the conversion from the record to its patch type.
pub open spec fn from_impl_text(d: RecordDecl, x: Derivation, cp: Seq<char>) -> Seq<char> {
    "impl"@ + impl_generics(d) + " ::core::convert::From<"@ + d.name@ + type_generics(d) + "> for "@
        + d.name@ + "Patch"@ + patch_generics(d, x) + " "@ + where_text(
        d.where_clause,
        obligations(d, x, cp, Context::FromImpl, false),
    ) + "{ fn from(value: "@ + d.name@ + type_generics(d) + ") -> Self { "@ + convert_body(d, x)
        + " } }"@
}

/// The declaration of the patch type: named after the record with `Patch`
/// appended, with the retained parameters, one slot per surviving field in
/// order, and the record's arrangement.
pub fn build_patch_struct(d: &RecordDecl, x: &Derivation, cp: &str, serde: bool) -> (r: String)
    requires
        x.of(*d),
    ensures
        r@ == patch_type_text(*d, *x, cp@, serde),
{
    let mut out = String::new();
    if serde {
        out.append("#[derive(::core::fmt::Debug, ::serde::Deserialize)] ");
    } else {
        out.append("#[derive(::core::fmt::Debug)] ");
    }
    out.append("pub struct ");
    out.append(d.name.as_str());
    out.append("Patch");
    match d.shape {
        Shape::Named => {
            let fields = field_decls(d, x, cp, serde);
            push_patch_generics(&mut out, d, x);
            out.append(" ");
            push_where(&mut out, d, x, cp, Context::PatchType, serde);
            out.append("{ ");
            push_joined(&mut out, &fields, ", ");
            out.append(" }");
        },
        Shape::Positional => {
            let fields = field_decls(d, x, cp, serde);
            push_patch_generics(&mut out, d, x);
            out.append("(");
            push_joined(&mut out, &fields, ", ");
            out.append(") ");
            push_where(&mut out, d, x, cp, Context::PatchType, serde);
            out.append(";");
        },
        Shape::Empty => {
            out.append(";");
        },
    }
    assert(out@ =~= patch_type_text(*d, *x, cp@, serde));
    out
}

/// The impl of `Patchable` for the record, naming its patch type.
pub fn build_patchable_trait_impl(d: &RecordDecl, x: &Derivation, cp: &str) -> (r: String)
    requires
        x.of(*d),
    ensures
        r@ == patchable_impl_text(*d, *x, cp@),
{
    let mut out = String::new();
    out.append("impl");
    push_impl_generics(&mut out, d);
    out.append(" ");
    out.append(cp);
    out.append("::Patchable for ");
    out.append(d.name.as_str());
    push_type_generics(&mut out, d);
    out.append(" ");
    push_where(&mut out, d, x, cp, Context::PatchableImpl, false);
    out.append("{ type Patch = ");
    out.append(d.name.as_str());
    out.append("Patch");
    push_patch_generics(&mut out, d, x);
    out.append("; }");
    assert(out@ =~= patchable_impl_text(*d, *x, cp@));
    out
}

/// The impl of `Patch` for the record: one statement per surviving field, in
/// order.
pub fn build_patch_trait_impl(d: &RecordDecl, x: &Derivation, cp: &str) -> (r: String)
    requires
        x.of(*d),
    ensures
        r@ == patch_impl_text(*d, *x, cp@),
{
    let stmts = update_stmts(d, x, cp);
    let mut out = String::new();
    out.append("impl");
    push_impl_generics(&mut out, d);
    out.append(" ");
    out.append(cp);
    out.append("::Patch for ");
    out.append(d.name.as_str());
    push_type_generics(&mut out, d);
    out.append(" ");
    push_where(&mut out, d, x, cp, Context::PatchImpl, false);
    out.append("{ fn patch(&mut self, ");
    if x.actions.len() == 0 {
        out.append("_patch");
    } else {
        out.append("patch");
    }
    out.append(": Self::Patch) { ");
    push_joined(&mut out, &stmts, "");
    out.append("} }");
    proof {
        reveal_strlit("");
        assert(""@ =~= Seq::<char>::empty());
    }
    assert(out@ =~= patch_impl_text(*d, *x, cp@));
    out
}

/// The impl of `From<record>` for the patch type.
pub fn build_from_trait_impl(d: &RecordDecl, x: &Derivation, cp: &str) -> (r: String)
    requires
        x.of(*d),
    ensures
        r@ == from_impl_text(*d, *x, cp@),
{
    let values = convert_values(d, x);
    let mut out = String::new();
    out.append("impl");
    push_impl_generics(&mut out, d);
    out.append(" ::core::convert::From<");
    out.append(d.name.as_str());
    push_type_generics(&mut out, d);
    out.append("> for ");
    out.append(d.name.as_str());
    out.append("Patch");
    push_patch_generics(&mut out, d, x);
    out.append(" ");
    push_where(&mut out, d, x, cp, Context::FromImpl, false);
    out.append("{ fn from(value: ");
    out.append(d.name.as_str());
    push_type_generics(&mut out, d);
    out.append(") -> Self { ");
    let ghost body_start = out@;
    match d.shape {
        Shape::Named => {
            out.append("Self { ");
            push_joined(&mut out, &values, ", ");
            out.append(" }");
        },
        Shape::Positional => {
            out.append("Self(");
            push_joined(&mut out, &values, ", ");
            out.append(")");
        },
        Shape::Empty => {
            out.append("Self");
        },
    }
    assert(out@ =~= body_start + convert_body(*d, *x));
    out.append(" } }");
    assert(out@ =~= from_impl_text(*d, *x, cp@));
    out
}

/// Positional slots follow the surviving fields: slot `k` of the patch type
/// has the type of field `actions[k].index`, the update writes that field from
/// slot `k` (so the slot number falls behind the field number by the count of
/// omitted fields before it), the value model's step `k` names the same field,
/// and no slot or statement names an omitted field.
pub proof fn lemma_positional_slots(
    d: RecordDecl,
    x: Derivation,
    cp: Seq<char>,
    serde: bool,
    nested: Seq<nat>,
    k: int,
)
    requires
        x.of(d),
        0 <= k < x.actions@.len(),
        x.actions@[k].kind == ActionKind::Keep,
        d.fields@[x.actions@[k].index as int].name is None,
    ensures
        ({
            let i = x.actions@[k].index as int;
            &&& !is_omitted(d.fields@[i])
            &&& patch_field_decl(d, x, cp, serde, k) == d.fields@[i].ty.text@
            &&& update_stmt(d, x, cp, k) == "self."@ + decimal(i as nat) + " = patch."@ + decimal(
                k as nat,
            ) + "; "@
            &&& proc_of(d.fields@, x.actions@, nested).steps[k].index == i
        }),
        forall|j: int, l: int|
            0 <= j < d.fields@.len() && is_omitted(#[trigger] d.fields@[j]) && 0 <= l
                < x.actions@.len() ==> (#[trigger] x.actions@[l]).index != j,
{
    let i = x.actions@[k].index as int;
    assert(!is_omitted(d.fields@[i]));
    assert(patch_field_decl(d, x, cp, serde, k) =~= d.fields@[i].ty.text@);
}

} // verus!
