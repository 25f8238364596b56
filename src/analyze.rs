//! The generic usage analyzer and the bound synthesizer: which generic
//! parameters the patch type keeps, and which obligations it carries.

use vstd::prelude::*;
use crate::classify::{
    ActionKind, FieldAction, accepted, action_kind, actions_follow, classify_fields, has_patchable_attr,
    has_patchable_skip_attr, is_omitted, reports, survives,
};
use crate::model::{EngineError, FieldDecl, ParamKind, RecordDecl, TypeExpr, TypeKind};
use crate::text::text_eq;

verus! {

/// `t` names `name` as the first segment of an unqualified path, anywhere in
/// it, generic arguments included.
pub open spec fn mentions(t: TypeExpr, name: Seq<char>) -> bool
    decreases t,
{
    match t.kind {
        TypeKind::Path { qself, segments } => {
            ||| qself is None && segments@.len() > 0 && segments@[0].ident@ == name
            ||| match qself {
                Some(q) => mentions(*q, name),
                None => false,
            }
            ||| exists|s: int, a: int|
                0 <= s < segments@.len() && 0 <= a < segments@[s].args@.len() && mentions(
                    #[trigger] segments@[s].args@[a],
                    name,
                )
        },
        TypeKind::Other { parts } => exists|k: int|
            0 <= k < parts@.len() && mentions(#[trigger] parts@[k], name),
    }
}

/// The name of a type written as a bare single-segment path without
/// arguments (`T`), if it is one.
pub open spec fn bare_name(t: TypeExpr) -> Option<Seq<char>> {
    match t.kind {
        TypeKind::Path { qself, segments } => if qself is None && segments@.len() == 1
            && !segments@[0].has_args {
            Some(segments@[0].ident@)
        } else {
            None
        },
        _ => None,
    }
}

/// How a generic parameter is used by the surviving fields. The two flags are
/// independent.
#[derive(Clone, Copy, Debug, PartialEq, Eq, Structural)]
pub struct TypeUsage {
    /// Named in the type of a field that is copied.
    pub in_keep: bool,
    /// Named in the type of a field that is recursively patched.
    pub in_patch: bool,
}

/// Field `f` survives and its action is of kind `kind`.
pub open spec fn has_action(d: RecordDecl, f: int, kind: ActionKind) -> bool {
    0 <= f < d.fields@.len() && !is_omitted(d.fields@[f]) && action_kind(d.fields@[f]) == kind
}

/// Some surviving field with an action of kind `kind` has a type that names
/// `name`.
pub open spec fn used_in(d: RecordDecl, kind: ActionKind, name: Seq<char>) -> bool {
    exists|f: int| #[trigger] has_action(d, f, kind) && mentions(d.fields@[f].ty, name)
}

/// Some surviving field's type names `name`.
pub open spec fn referenced(d: RecordDecl, name: Seq<char>) -> bool {
    exists|f: int|
        0 <= f < d.fields@.len() && !is_omitted(#[trigger] d.fields@[f]) && mentions(
            d.fields@[f].ty,
            name,
        )
}

pub open spec fn is_type_param(d: RecordDecl, i: int) -> bool {
    0 <= i < d.params@.len() && d.params@[i].kind == ParamKind::Type
}

/// Parameter `i` is kept on the patch type.
pub open spec fn is_retained(d: RecordDecl, i: int) -> bool {
    is_type_param(d, i) && referenced(d, d.params@[i].name@)
}

/// Parameter `i` is copied by some field: it must be duplicable.
pub open spec fn is_duplicable(d: RecordDecl, i: int) -> bool {
    is_type_param(d, i) && used_in(d, ActionKind::Keep, d.params@[i].name@)
}

/// Field `f` survives and is recursively patched.
pub open spec fn is_patch_field(d: RecordDecl, f: int) -> bool {
    has_action(d, f, ActionKind::Patch)
}

/// The type of field `f` is a bare generic type parameter of the record.
pub open spec fn is_param_typed(d: RecordDecl, f: int) -> bool {
    let b = bare_name(d.fields@[f].ty);
    b is Some && exists|i: int| is_type_param(d, i) && d.params@[i].name@ == b.unwrap()
}

/// Parameter `i` is itself the type of a recursively patched field: it must
/// be recursively patchable.
pub open spec fn is_patchable_param(d: RecordDecl, i: int) -> bool {
    &&& is_type_param(d, i)
    &&& exists|f: int|
        0 <= f < d.fields@.len() && is_patch_field(d, f) && bare_name(
            (#[trigger] d.fields@[f]).ty,
        ) == Some(d.params@[i].name@)
}

/// Field `f` is recursively patched through a concrete type, the first field
/// with that type: its type carries one obligation, however many fields share
/// it.
pub open spec fn is_obligated_field(d: RecordDecl, f: int) -> bool {
    &&& 0 <= f < d.fields@.len()
    &&& is_patch_field(d, f)
    &&& !is_param_typed(d, f)
    &&& forall|g: int|
        0 <= g < f && is_patch_field(d, g) && !is_param_typed(d, g) ==> (#[trigger] d.fields@[g]).ty.text@
            != d.fields@[f].ty.text@
}

/// `r` lists, in increasing order, exactly the indices below `n` that satisfy
/// `p`.
pub open spec fn lists_exactly(r: Seq<usize>, n: int, p: spec_fn(int) -> bool) -> bool {
    &&& forall|k: int| 0 <= k < r.len() ==> 0 <= #[trigger] r[k] < n && p(r[k] as int)
    &&& forall|k: int, l: int| 0 <= k < l < r.len() ==> r[k] < r[l]
    &&& forall|j: int| 0 <= j < n && #[trigger] p(j) ==> r.contains(j as usize)
}

proof fn lemma_lists_step(r: Seq<usize>, i: int, p: spec_fn(int) -> bool)
    requires
        lists_exactly(r, i, p),
        0 <= i < usize::MAX,
    ensures
        p(i) ==> lists_exactly(r.push(i as usize), i + 1, p),
        !p(i) ==> lists_exactly(r, i + 1, p),
{
    if p(i) {
        let r2 = r.push(i as usize);
        assert forall|j: int| 0 <= j < i + 1 && #[trigger] p(j) implies r2.contains(j as usize) by {
            if j < i {
                let k = choose|k: int| 0 <= k < r.len() && r[k] == j as usize;
                assert(r2[k] == j as usize);
            } else {
                assert(r2[r.len() as int] == j as usize);
            }
        }
    }
}

/// Everything the engine derives from an accepted declaration.
pub struct Derivation {
    /// One action per surviving field, in order.
    pub actions: Vec<FieldAction>,
    /// One usage per generic parameter.
    pub usage: Vec<TypeUsage>,
    /// The generic parameters the patch type keeps.
    pub retained: Vec<usize>,
    /// The parameters that must be duplicable: those named by a copied
    /// field. No emitted item states this obligation: the update and the
    /// conversion move the copied values instead of cloning them, so a
    /// `Clone` bound there would only refuse records whose copied parameters
    /// cannot be cloned. It is reported for a caller that adds a `Clone`
    /// derive to the patch type.
    pub duplicable: Vec<usize>,
    /// The parameters that must be recursively patchable.
    pub patchable: Vec<usize>,
    /// The fields whose concrete type must be recursively patchable.
    pub obligated_fields: Vec<usize>,
}

impl Derivation {
    /// The derivation is the one `d` determines.
    pub open spec fn of(&self, d: RecordDecl) -> bool {
        let n = d.params@.len() as int;
        &&& actions_follow(d.fields@, self.actions@)
        &&& self.usage@.len() == n
        &&& forall|i: int|
            0 <= i < n ==> #[trigger] self.usage@[i] == (TypeUsage {
                in_keep: is_type_param(d, i) && used_in(d, ActionKind::Keep, d.params@[i].name@),
                in_patch: is_type_param(d, i) && used_in(d, ActionKind::Patch, d.params@[i].name@),
            })
        &&& lists_exactly(self.retained@, n, |i: int| is_retained(d, i))
        &&& lists_exactly(self.duplicable@, n, |i: int| is_duplicable(d, i))
        &&& lists_exactly(self.patchable@, n, |i: int| is_patchable_param(d, i))
        &&& lists_exactly(
            self.obligated_fields@,
            d.fields@.len() as int,
            |f: int| is_obligated_field(d, f),
        )
    }
}

/// Whether `t` names `name` as the first segment of an unqualified path.
pub fn type_mentions(t: &TypeExpr, name: &str) -> (r: bool)
    ensures
        r == mentions(*t, name@),
    decreases t,
{
    match &t.kind {
        TypeKind::Path { qself, segments } => {
            match qself {
                None => {
                    if segments.len() > 0 && text_eq(segments[0].ident.as_str(), name) {
                        return true;
                    }
                },
                Some(q) => {
                    if type_mentions(q, name) {
                        return true;
                    }
                },
            }
            let mut s: usize = 0;
            while s < segments.len()
                invariant
                    s <= segments@.len(),
                    t.kind == (TypeKind::Path { qself: *qself, segments: *segments }),
                    !(qself is None && segments@.len() > 0 && segments@[0].ident@ == name@),
                    !(match *qself {
                        Some(q) => mentions(*q, name@),
                        None => false,
                    }),
                    forall|s2: int, a: int|
                        0 <= s2 < s && 0 <= a < segments@[s2].args@.len() ==> !mentions(
                            #[trigger] segments@[s2].args@[a],
                            name@,
                        ),
                decreases segments@.len() - s,
            {
                let args = &segments[s].args;
                let mut a: usize = 0;
                while a < args.len()
                    invariant
                        s < segments@.len(),
                        *args == segments@[s as int].args,
                        a <= args@.len(),
                        t.kind == (TypeKind::Path { qself: *qself, segments: *segments }),
                        forall|a2: int| 0 <= a2 < a ==> !mentions(#[trigger] args@[a2], name@),
                    decreases args@.len() - a,
                {
                    proof {
                        assert(decreases_to!(*t => t.kind));
                        assert(decreases_to!(t.kind => t.kind->segments));
                        assert(decreases_to!(*segments => segments@));
                        assert(decreases_to!(segments@ => segments@[s as int]));
                        assert(decreases_to!(segments@[s as int] => *args));
                        assert(decreases_to!(*args => args@));
                        assert(decreases_to!(args@ => args@[a as int]));
                    }
                    if type_mentions(&args[a], name) {
                        assert(mentions(segments@[s as int].args@[a as int], name@));
                        assert(mentions(*t, name@));
                        return true;
                    }
                    a = a + 1;
                }
                s = s + 1;
            }
            false
        },
        TypeKind::Other { parts } => {
            let mut k: usize = 0;
            while k < parts.len()
                invariant
                    k <= parts@.len(),
                    t.kind == (TypeKind::Other { parts: *parts }),
                    forall|k2: int| 0 <= k2 < k ==> !mentions(#[trigger] parts@[k2], name@),
                decreases parts@.len() - k,
            {
                proof {
                    assert(decreases_to!(*t => t.kind));
                    assert(decreases_to!(t.kind => t.kind->parts));
                    assert(decreases_to!(*parts => parts@));
                    assert(decreases_to!(parts@ => parts@[k as int]));
                }
                if type_mentions(&parts[k], name) {
                    assert(mentions(*t, name@));
                    return true;
                }
                k = k + 1;
            }
            false
        },
    }
}

/// The name of a type written as a bare single-segment path (`T`).
pub fn bare_type_name(t: &TypeExpr) -> (r: Option<&String>)
    ensures
        r matches Some(n) ==> bare_name(*t) == Some(n@),
        r is None ==> bare_name(*t) is None,
{
    match &t.kind {
        TypeKind::Path { qself: None, segments } => {
            if segments.len() == 1 && !segments[0].has_args {
                Some(&segments[0].ident)
            } else {
                None
            }
        },
        _ => None,
    }
}

/// Whether field `f` survives and is recursively patched.
pub fn field_is_patched(d: &RecordDecl, f: usize) -> (r: bool)
    requires
        f < d.fields@.len(),
    ensures
        r == is_patch_field(*d, f as int),
{
    !has_patchable_skip_attr(&d.fields[f]) && has_patchable_attr(&d.fields[f])
}

/// Whether the type of field `f` is a bare generic type parameter.
pub fn field_is_param_typed(d: &RecordDecl, f: usize) -> (r: bool)
    requires
        f < d.fields@.len(),
    ensures
        r == is_param_typed(*d, f as int),
{
    match bare_type_name(&d.fields[f].ty) {
        None => false,
        Some(b) => {
            let mut i: usize = 0;
            while i < d.params.len()
                invariant
                    i <= d.params@.len(),
                    f < d.fields@.len(),
                    bare_name(d.fields@[f as int].ty) == Some(b@),
                    forall|j: int|
                        0 <= j < i ==> !(is_type_param(*d, j) && #[trigger] d.params@[j].name@
                            == b@),
                decreases d.params@.len() - i,
            {
                if d.params[i].kind == ParamKind::Type && text_eq(
                    d.params[i].name.as_str(),
                    b.as_str(),
                ) {
                    assert(is_type_param(*d, i as int));
                    return true;
                }
                i = i + 1;
            }
            false
        },
    }
}

/// How generic parameter `i` is used by the surviving fields.
pub fn param_usage(d: &RecordDecl, i: usize) -> (r: TypeUsage)
    requires
        i < d.params@.len(),
    ensures
        r == (TypeUsage {
            in_keep: is_type_param(*d, i as int) && used_in(*d, ActionKind::Keep, d.params@[i as int].name@),
            in_patch: is_type_param(*d, i as int) && used_in(*d, ActionKind::Patch, d.params@[i as int].name@),
        }),
{
    let mut u = TypeUsage { in_keep: false, in_patch: false };
    if d.params[i].kind != ParamKind::Type {
        return u;
    }
    let ghost name = d.params@[i as int].name@;
    let mut f: usize = 0;
    while f < d.fields.len()
        invariant
            i < d.params@.len(),
            name == d.params@[i as int].name@,
            f <= d.fields@.len(),
            u.in_keep == exists|g: int| 0 <= g < f && #[trigger] has_action(*d, g, ActionKind::Keep) && mentions(d.fields@[g].ty, name),
            u.in_patch == exists|g: int| 0 <= g < f && #[trigger] has_action(*d, g, ActionKind::Patch) && mentions(d.fields@[g].ty, name),
        decreases d.fields@.len() - f,
    {
        if !has_patchable_skip_attr(&d.fields[f]) && type_mentions(&d.fields[f].ty, d.params[i].name.as_str()) {
            if has_patchable_attr(&d.fields[f]) {
                assert(has_action(*d, f as int, ActionKind::Patch));
                u.in_patch = true;
            } else {
                assert(has_action(*d, f as int, ActionKind::Keep));
                u.in_keep = true;
            }
        }
        f = f + 1;
    }
    assert(is_type_param(*d, i as int));
    u
}

/// Whether parameter `i` is the bare type of a recursively patched field.
pub fn param_is_patchable(d: &RecordDecl, i: usize) -> (r: bool)
    requires
        i < d.params@.len(),
    ensures
        r == is_patchable_param(*d, i as int),
{
    if d.params[i].kind != ParamKind::Type {
        return false;
    }
    let mut f: usize = 0;
    while f < d.fields.len()
        invariant
            i < d.params@.len(),
            is_type_param(*d, i as int),
            f <= d.fields@.len(),
            forall|g: int|
                0 <= g < f ==> !(is_patch_field(*d, g) && bare_name((#[trigger] d.fields@[g]).ty)
                    == Some(d.params@[i as int].name@)),
        decreases d.fields@.len() - f,
    {
        if field_is_patched(d, f) {
            match bare_type_name(&d.fields[f].ty) {
                Some(b) => {
                    if text_eq(b.as_str(), d.params[i].name.as_str()) {
                        assert(is_patch_field(*d, f as int) && bare_name(d.fields@[f as int].ty)
                            == Some(d.params@[i as int].name@));
                        return true;
                    }
                },
                None => {},
            }
        }
        f = f + 1;
    }
    false
}

/// Whether field `f` carries the obligation of its concrete type.
pub fn field_is_obligated(d: &RecordDecl, f: usize) -> (r: bool)
    requires
        f < d.fields@.len(),
    ensures
        r == is_obligated_field(*d, f as int),
{
    if !field_is_patched(d, f) || field_is_param_typed(d, f) {
        return false;
    }
    let mut g: usize = 0;
    while g < f
        invariant
            f < d.fields@.len(),
            g <= f,
            forall|h: int|
                0 <= h < g && is_patch_field(*d, h) && !is_param_typed(*d, h) ==> (#[trigger] d.fields@[h]).ty.text@
                    != d.fields@[f as int].ty.text@,
        decreases f - g,
    {
        if field_is_patched(d, g) && !field_is_param_typed(d, g) && d.fields[g].ty.text
            == d.fields[f].ty.text {
            return false;
        }
        g = g + 1;
    }
    true
}

/// Classifies the fields and analyzes the generic parameters of a
/// declaration, or reports the first reason it cannot be transformed.
pub fn derive_record(d: &RecordDecl) -> (r: Result<Derivation, EngineError>)
    ensures
        r is Ok <==> accepted(*d),
        r matches Ok(x) ==> x.of(*d),
        r matches Err(e) ==> reports(*d, e),
{
    let actions = match classify_fields(d) {
        Ok(a) => a,
        Err(e) => return Err(e),
    };
    let n = d.params.len();
    let mut usage: Vec<TypeUsage> = Vec::new();
    let mut retained: Vec<usize> = Vec::new();
    let mut duplicable: Vec<usize> = Vec::new();
    let mut patchable: Vec<usize> = Vec::new();
    let mut i: usize = 0;
    while i < n
        invariant
            n == d.params@.len(),
            i <= n,
            usage@.len() == i,
            forall|j: int|
                0 <= j < i ==> #[trigger] usage@[j] == (TypeUsage {
                    in_keep: is_type_param(*d, j) && used_in(*d, ActionKind::Keep, d.params@[j].name@),
                    in_patch: is_type_param(*d, j) && used_in(*d, ActionKind::Patch, d.params@[j].name@),
                }),
            lists_exactly(retained@, i as int, |j: int| is_retained(*d, j)),
            lists_exactly(duplicable@, i as int, |j: int| is_duplicable(*d, j)),
            lists_exactly(patchable@, i as int, |j: int| is_patchable_param(*d, j)),
        decreases n - i,
    {
        let u = param_usage(d, i);
        proof {
            let name = d.params@[i as int].name@;
            if referenced(*d, name) {
                let f = choose|f: int|
                    0 <= f < d.fields@.len() && !is_omitted(#[trigger] d.fields@[f]) && mentions(
                        d.fields@[f].ty,
                        name,
                    );
                assert(has_action(*d, f, action_kind(d.fields@[f])));
            }
        }
        proof {
            lemma_lists_step(retained@, i as int, |j: int| is_retained(*d, j));
            lemma_lists_step(duplicable@, i as int, |j: int| is_duplicable(*d, j));
            lemma_lists_step(patchable@, i as int, |j: int| is_patchable_param(*d, j));
        }
        assert((u.in_keep || u.in_patch) == is_retained(*d, i as int));
        assert(u.in_keep == is_duplicable(*d, i as int));
        usage.push(u);
        if u.in_keep || u.in_patch {
            retained.push(i);
        }
        if u.in_keep {
            duplicable.push(i);
        }
        if param_is_patchable(d, i) {
            patchable.push(i);
        }
        i = i + 1;
    }
    let m = d.fields.len();
    let mut obligated_fields: Vec<usize> = Vec::new();
    let mut f: usize = 0;
    while f < m
        invariant
            m == d.fields@.len(),
            f <= m,
            lists_exactly(obligated_fields@, f as int, |g: int| is_obligated_field(*d, g)),
        decreases m - f,
    {
        proof {
            lemma_lists_step(obligated_fields@, f as int, |g: int| is_obligated_field(*d, g));
        }
        if field_is_obligated(d, f) {
            obligated_fields.push(f);
        }
        f = f + 1;
    }
    Ok(Derivation { actions, usage, retained, duplicable, patchable, obligated_fields })
}

proof fn lemma_lists_unique(r1: Seq<usize>, r2: Seq<usize>, n: int, p: spec_fn(int) -> bool)
    requires
        lists_exactly(r1, n, p),
        lists_exactly(r2, n, p),
    ensures
        r1 == r2,
{
    assert forall|k: int| 0 <= k < r1.len() && 0 <= k < r2.len() implies r1[k] == r2[k] by {
        lemma_lists_agree_upto(r1, r2, n, p, k);
    }
    lemma_lists_longer(r1, r2, n, p);
    lemma_lists_longer(r2, r1, n, p);
    assert(r1 =~= r2);
}

proof fn lemma_lists_agree_upto(r1: Seq<usize>, r2: Seq<usize>, n: int, p: spec_fn(int) -> bool, k: int)
    requires
        lists_exactly(r1, n, p),
        lists_exactly(r2, n, p),
        0 <= k < r1.len(),
        k < r2.len(),
    ensures
        forall|j: int| 0 <= j <= k ==> r1[j] == r2[j],
    decreases k,
{
    if k > 0 {
        lemma_lists_agree_upto(r1, r2, n, p, k - 1);
    }
    lemma_lists_not_below(r1, r2, n, p, k);
    lemma_lists_not_below(r2, r1, n, p, k);
}

/// With the two lists equal below `k`, `r1[k]` is not below `r2[k]`.
proof fn lemma_lists_not_below(r1: Seq<usize>, r2: Seq<usize>, n: int, p: spec_fn(int) -> bool, k: int)
    requires
        lists_exactly(r1, n, p),
        lists_exactly(r2, n, p),
        0 <= k < r1.len(),
        k < r2.len(),
        forall|j: int| 0 <= j < k ==> r1[j] == r2[j],
    ensures
        r1[k] >= r2[k],
    decreases k,
{
    if r1[k] < r2[k] {
        let v = r1[k] as int;
        assert(p(v));
        assert(r2.contains(v as usize));
        let m = choose|m: int| 0 <= m < r2.len() && r2[m] == v as usize;
        if m >= k {
            if m > k {
                assert(r2[k] < r2[m]);
            }
        } else {
            assert(r1[m] == r2[m]);
            assert(r1[m] < r1[k]);
        }
    }
}

proof fn lemma_lists_longer(r1: Seq<usize>, r2: Seq<usize>, n: int, p: spec_fn(int) -> bool)
    requires
        lists_exactly(r1, n, p),
        lists_exactly(r2, n, p),
        forall|k: int| 0 <= k < r1.len() && k < r2.len() ==> r1[k] == r2[k],
    ensures
        r1.len() >= r2.len(),
{
    if r1.len() < r2.len() {
        let k = r1.len() as int;
        let v = r2[k] as int;
        assert(p(v));
        assert(r1.contains(v as usize));
        let m = choose|m: int| 0 <= m < r1.len() && r1[m] == v as usize;
        assert(r2[m] < r2[k]);
    }
}

proof fn lemma_actions_unique(fs: Seq<FieldDecl>, a1: Seq<FieldAction>, a2: Seq<FieldAction>)
    requires
        actions_follow(fs, a1),
        actions_follow(fs, a2),
    ensures
        a1 == a2,
{
    let r1 = Seq::new(a1.len(), |k: int| a1[k].index);
    let r2 = Seq::new(a2.len(), |k: int| a2[k].index);
    let p = |j: int| survives(fs, j);
    assert forall|j: int| 0 <= j < fs.len() && #[trigger] p(j) implies r1.contains(j as usize) by {
        let k = choose|k: int| 0 <= k < a1.len() && (#[trigger] a1[k]).index == j;
        assert(r1[k] == j as usize);
    }
    assert forall|j: int| 0 <= j < fs.len() && #[trigger] p(j) implies r2.contains(j as usize) by {
        let k = choose|k: int| 0 <= k < a2.len() && (#[trigger] a2[k]).index == j;
        assert(r2[k] == j as usize);
    }
    assert forall|k: int| 0 <= k < r1.len() implies p(#[trigger] r1[k] as int) by {
        assert(a1[k].index < fs.len());
    }
    assert forall|k: int| 0 <= k < r2.len() implies p(#[trigger] r2[k] as int) by {
        assert(a2[k].index < fs.len());
    }
    lemma_lists_unique(r1, r2, fs.len() as int, p);
    assert forall|k: int| 0 <= k < a1.len() implies a1[k] == a2[k] by {
        assert(r1[k] == r2[k]);
    }
    assert(a1 =~= a2);
}

/// The derivation is a function of the declaration: any two derivations of
/// it agree on every list they hold.
pub proof fn lemma_derivation_unique(d: RecordDecl, x: Derivation, y: Derivation)
    requires
        x.of(d),
        y.of(d),
    ensures
        x.actions@ == y.actions@,
        x.usage@ == y.usage@,
        x.retained@ == y.retained@,
        x.duplicable@ == y.duplicable@,
        x.patchable@ == y.patchable@,
        x.obligated_fields@ == y.obligated_fields@,
{
    let n = d.params@.len() as int;
    lemma_actions_unique(d.fields@, x.actions@, y.actions@);
    assert(x.usage@ =~= y.usage@);
    lemma_lists_unique(x.retained@, y.retained@, n, |i: int| is_retained(d, i));
    lemma_lists_unique(x.duplicable@, y.duplicable@, n, |i: int| is_duplicable(d, i));
    lemma_lists_unique(x.patchable@, y.patchable@, n, |i: int| is_patchable_param(d, i));
    lemma_lists_unique(
        x.obligated_fields@,
        y.obligated_fields@,
        d.fields@.len() as int,
        |f: int| is_obligated_field(d, f),
    );
}

} // verus!
