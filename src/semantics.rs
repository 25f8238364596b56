//! What the emitted update and convert procedures do to values, and the laws
//! they obey.
//!
//! A record value is a sequence of field values; a field value is either a
//! leaf (copied wholesale) or itself a record. Each record type has a
//! procedure: its field count and one step per surviving field, in order.
//! Step `k` reads slot `k` of the patch and writes field `index` of the
//! target: wholesale, or through the procedure of the field's own type.

use vstd::prelude::*;
use crate::classify::{ActionKind, FieldAction, actions_follow, is_omitted, survives};
use crate::model::FieldDecl;

verus! {

/// A value as patching sees it.
pub enum Val {
    Leaf(int),
    Rec(Seq<Val>),
}

/// One step of an update or convert procedure.
pub struct Step {
    /// The field of the record that the step writes.
    pub index: nat,
    /// The record type whose procedure handles the field, for a recursively
    /// patched field; `None` for a copied one.
    pub nested: Option<nat>,
}

/// The procedure of one record type.
pub struct Proc {
    pub arity: nat,
    pub steps: Seq<Step>,
}

pub open spec fn fields_of(v: Val) -> Seq<Val> {
    match v {
        Val::Rec(fs) => fs,
        Val::Leaf(_) => seq![],
    }
}

/// The number of steps of type `id`'s procedure.
pub open spec fn steps_len(procs: Map<nat, Proc>, id: nat) -> nat {
    if procs.contains_key(id) {
        procs[id].steps.len()
    } else {
        0
    }
}

/// The first `n` steps of type `id`'s update, run on target `t` with patch
/// `p`, in order.
pub open spec fn update_upto(procs: Map<nat, Proc>, id: nat, t: Val, p: Val, n: nat) -> Val
    decreases t, n,
{
    if n == 0 || n > steps_len(procs, id) {
        t
    } else {
        let prev = update_upto(procs, id, t, p, (n - 1) as nat);
        let st = procs[id].steps[n - 1];
        let src = fields_of(p)[n - 1];
        match t {
            Val::Rec(fs) => if st.index < fs.len() {
                let v = match st.nested {
                    None => src,
                    Some(q) => update_upto(procs, q, fs[st.index as int], src, steps_len(procs, q)),
                };
                Val::Rec(fields_of(prev).update(st.index as int, v))
            } else {
                prev
            },
            Val::Leaf(_) => prev,
        }
    }
}

/// Type `id`'s update of `t` with `p`.
pub open spec fn update(procs: Map<nat, Proc>, id: nat, t: Val, p: Val) -> Val {
    update_upto(procs, id, t, p, steps_len(procs, id))
}

/// The first `n` slots of the patch that type `id`'s convert builds from `v`.
pub open spec fn convert_upto(procs: Map<nat, Proc>, id: nat, v: Val, n: nat) -> Seq<Val>
    decreases v, n,
{
    if n == 0 || n > steps_len(procs, id) {
        seq![]
    } else {
        let prev = convert_upto(procs, id, v, (n - 1) as nat);
        let st = procs[id].steps[n - 1];
        match v {
            Val::Rec(fs) => if st.index < fs.len() {
                prev.push(
                    match st.nested {
                        None => fs[st.index as int],
                        Some(q) => Val::Rec(
                            convert_upto(procs, q, fs[st.index as int], steps_len(procs, q)),
                        ),
                    },
                )
            } else {
                prev.push(Val::Leaf(0))
            },
            Val::Leaf(_) => prev.push(Val::Leaf(0)),
        }
    }
}

/// Type `id`'s conversion of `v` into a patch.
pub open spec fn convert(procs: Map<nat, Proc>, id: nat, v: Val) -> Val {
    Val::Rec(convert_upto(procs, id, v, steps_len(procs, id)))
}

/// Steps name fields of the record, in strictly increasing order.
pub open spec fn proc_wf(pr: Proc) -> bool {
    &&& forall|k: int| 0 <= k < pr.steps.len() ==> (#[trigger] pr.steps[k]).index < pr.arity
    &&& forall|k: int, l: int|
        0 <= k < l < pr.steps.len() ==> (#[trigger] pr.steps[k]).index < (#[trigger] pr.steps[l]).index
}

pub open spec fn procs_wf(procs: Map<nat, Proc>) -> bool {
    forall|id: nat| #[trigger] procs.contains_key(id) ==> proc_wf(procs[id])
}

/// `v` is a record of type `id` as far as the first `n` steps look into it.
pub open spec fn conforms_upto(procs: Map<nat, Proc>, id: nat, v: Val, n: nat) -> bool
    decreases v, n,
{
    match v {
        Val::Rec(fs) => {
            &&& procs.contains_key(id)
            &&& fs.len() == procs[id].arity
            &&& n <= procs[id].steps.len()
            &&& n > 0 ==> {
                let st = procs[id].steps[n - 1];
                &&& conforms_upto(procs, id, v, (n - 1) as nat)
                &&& st.index < fs.len()
                &&& match st.nested {
                    None => true,
                    Some(q) => conforms_upto(procs, q, fs[st.index as int], steps_len(procs, q)),
                }
            }
        },
        Val::Leaf(_) => false,
    }
}

/// `v` is a record of type `id`, and so are its recursively patched fields.
pub open spec fn conforms(procs: Map<nat, Proc>, id: nat, v: Val) -> bool {
    conforms_upto(procs, id, v, steps_len(procs, id))
}

/// `p` is a patch of type `id` in its first `n` slots.
pub open spec fn patch_conforms_upto(procs: Map<nat, Proc>, id: nat, p: Val, n: nat) -> bool
    decreases p, n,
{
    match p {
        Val::Rec(ps) => {
            &&& procs.contains_key(id)
            &&& ps.len() == procs[id].steps.len()
            &&& n <= ps.len()
            &&& n > 0 ==> {
                &&& patch_conforms_upto(procs, id, p, (n - 1) as nat)
                &&& match procs[id].steps[n - 1].nested {
                    None => true,
                    Some(q) => patch_conforms_upto(procs, q, ps[n - 1], steps_len(procs, q)),
                }
            }
        },
        Val::Leaf(_) => false,
    }
}

/// `p` is a patch of type `id`, down to its nested patches.
pub open spec fn patch_conforms(procs: Map<nat, Proc>, id: nat, p: Val) -> bool {
    patch_conforms_upto(procs, id, p, steps_len(procs, id))
}

/// What step `k` of type `id`'s update writes into its field, for target `t`
/// and patch `p`.
pub open spec fn written(procs: Map<nat, Proc>, id: nat, t: Val, p: Val, k: int) -> Val {
    let st = procs[id].steps[k];
    match st.nested {
        None => fields_of(p)[k],
        Some(q) => update(procs, q, fields_of(t)[st.index as int], fields_of(p)[k]),
    }
}

proof fn lemma_update_len(procs: Map<nat, Proc>, id: nat, t: Val, p: Val, n: nat)
    requires
        t is Rec,
    ensures
        update_upto(procs, id, t, p, n) is Rec,
        fields_of(update_upto(procs, id, t, p, n)).len() == fields_of(t).len(),
    decreases n,
{
    if n > 0 && n <= steps_len(procs, id) {
        lemma_update_len(procs, id, t, p, (n - 1) as nat);
    }
}

/// Fields that none of the first `n` steps names keep their value.
proof fn lemma_update_untouched(procs: Map<nat, Proc>, id: nat, t: Val, p: Val, n: nat, j: int)
    requires
        t is Rec,
        0 <= j < fields_of(t).len(),
        n <= steps_len(procs, id),
        forall|k: int| 0 <= k < n ==> (#[trigger] procs[id].steps[k]).index != j,
    ensures
        fields_of(update_upto(procs, id, t, p, n))[j] == fields_of(t)[j],
    decreases n,
{
    if n > 0 {
        lemma_update_len(procs, id, t, p, (n - 1) as nat);
        lemma_update_untouched(procs, id, t, p, (n - 1) as nat, j);
        assert(procs[id].steps[n - 1].index != j);
    }
}

/// After the first `n` steps, the field of step `k < n` holds what step `k`
/// wrote: no later step names it again.
proof fn lemma_update_at(procs: Map<nat, Proc>, id: nat, t: Val, p: Val, n: nat, k: int)
    requires
        t is Rec,
        procs.contains_key(id),
        proc_wf(procs[id]),
        fields_of(t).len() == procs[id].arity,
        0 <= k < n <= steps_len(procs, id),
    ensures
        fields_of(update_upto(procs, id, t, p, n))[procs[id].steps[k].index as int] == written(
            procs,
            id,
            t,
            p,
            k,
        ),
    decreases n,
{
    lemma_update_len(procs, id, t, p, (n - 1) as nat);
    if k < n - 1 {
        lemma_update_at(procs, id, t, p, (n - 1) as nat, k);
        assert(procs[id].steps[k].index < procs[id].steps[n - 1].index);
    }
}

proof fn lemma_convert_prefix(procs: Map<nat, Proc>, id: nat, v: Val, m: nat)
    requires
        m <= steps_len(procs, id),
    ensures
        convert_upto(procs, id, v, m).len() == m,
        forall|k: int|
            0 <= k < m ==> #[trigger] convert_upto(procs, id, v, m)[k] == convert_upto(
                procs,
                id,
                v,
                (k + 1) as nat,
            )[k],
    decreases m,
{
    if m > 0 {
        lemma_convert_prefix(procs, id, v, (m - 1) as nat);
    }
}

proof fn lemma_conforms_prefix(procs: Map<nat, Proc>, id: nat, v: Val, n: nat, m: nat)
    requires
        conforms_upto(procs, id, v, n),
        m <= n,
    ensures
        conforms_upto(procs, id, v, m),
    decreases n,
{
    if m < n {
        lemma_conforms_prefix(procs, id, v, (n - 1) as nat, m);
    }
}

proof fn lemma_patch_conforms_prefix(procs: Map<nat, Proc>, id: nat, p: Val, n: nat, m: nat)
    requires
        patch_conforms_upto(procs, id, p, n),
        m <= n,
    ensures
        patch_conforms_upto(procs, id, p, m),
    decreases n,
{
    if m < n {
        lemma_patch_conforms_prefix(procs, id, p, (n - 1) as nat, m);
    }
}

proof fn lemma_round_trip_upto(procs: Map<nat, Proc>, id: nat, v: Val, n: nat)
    requires
        conforms(procs, id, v),
        n <= steps_len(procs, id),
    ensures
        update_upto(procs, id, v, convert(procs, id, v), n) == v,
    decreases v, n,
{
    if n > 0 {
        let full = steps_len(procs, id);
        lemma_round_trip_upto(procs, id, v, (n - 1) as nat);
        lemma_convert_prefix(procs, id, v, full);
        lemma_conforms_prefix(procs, id, v, full, n);
        let fs = fields_of(v);
        let st = procs[id].steps[n - 1];
        let c = convert(procs, id, v);
        lemma_convert_prefix(procs, id, v, (n - 1) as nat);
        assert(v is Rec);
        assert(st.index < fs.len());
        assert(fields_of(c)[n - 1] == convert_upto(procs, id, v, n)[n - 1]);
        match st.nested {
            None => {
                assert(fields_of(c)[n - 1] == fs[st.index as int]);
                assert(fs.update(st.index as int, fs[st.index as int]) == fs);
            },
            Some(q) => {
                let w = fs[st.index as int];
                assert(fields_of(c)[n - 1] == convert(procs, q, w));
                assert(conforms(procs, q, w));
                assert(decreases_to!(v => w));
                lemma_round_trip_upto(procs, q, w, steps_len(procs, q));
                assert(fs.update(st.index as int, w) == fs);
            },
        }
    }
}

/// Converting a record into a patch and applying that patch to an equal
/// record gives the record back, down through recursively patched fields.
pub proof fn lemma_round_trip(procs: Map<nat, Proc>, id: nat, v: Val)
    requires
        conforms(procs, id, v),
    ensures
        update(procs, id, v, convert(procs, id, v)) == v,
{
    lemma_round_trip_upto(procs, id, v, steps_len(procs, id));
}

proof fn lemma_idempotent_upto(procs: Map<nat, Proc>, id: nat, t: Val, p: Val, n: nat)
    requires
        procs_wf(procs),
        conforms(procs, id, t),
        patch_conforms(procs, id, p),
        n <= steps_len(procs, id),
    ensures
        update_upto(procs, id, update(procs, id, t, p), p, n) == update(procs, id, t, p),
    decreases t, n,
{
    if n > 0 {
        let full = steps_len(procs, id);
        let u = update(procs, id, t, p);
        lemma_idempotent_upto(procs, id, t, p, (n - 1) as nat);
        lemma_update_len(procs, id, t, p, full);
        lemma_update_at(procs, id, t, p, full, n - 1);
        lemma_conforms_prefix(procs, id, t, full, n);
        lemma_patch_conforms_prefix(procs, id, p, full, n);
        let gs = fields_of(u);
        let st = procs[id].steps[n - 1];
        match st.nested {
            None => {
                assert(gs.update(st.index as int, fields_of(p)[n - 1]) == gs);
            },
            Some(q) => {
                let w = fields_of(t)[st.index as int];
                assert(decreases_to!(t => w));
                lemma_idempotent_upto(procs, q, w, fields_of(p)[n - 1], steps_len(procs, q));
                assert(gs.update(st.index as int, gs[st.index as int]) == gs);
            },
        }
    }
}

/// Applying the same patch twice gives what applying it once gives.
pub proof fn lemma_idempotent(procs: Map<nat, Proc>, id: nat, t: Val, p: Val)
    requires
        procs_wf(procs),
        conforms(procs, id, t),
        patch_conforms(procs, id, p),
    ensures
        update(procs, id, update(procs, id, t, p), p) == update(procs, id, t, p),
{
    lemma_idempotent_upto(procs, id, t, p, steps_len(procs, id));
}

/// A field that no step names keeps its value under every patch.
pub proof fn lemma_unnamed_field_untouched(procs: Map<nat, Proc>, id: nat, t: Val, p: Val, j: int)
    requires
        conforms(procs, id, t),
        0 <= j < fields_of(t).len(),
        forall|k: int| 0 <= k < steps_len(procs, id) ==> (#[trigger] procs[id].steps[k]).index != j,
    ensures
        fields_of(update(procs, id, t, p))[j] == fields_of(t)[j],
{
    lemma_update_untouched(procs, id, t, p, steps_len(procs, id), j);
}

/// The patch that convert builds never depends on a field that no step
/// names.
pub proof fn lemma_convert_ignores_unnamed(procs: Map<nat, Proc>, id: nat, v: Val, w: Val)
    requires
        v is Rec,
        w is Rec,
        fields_of(v).len() == fields_of(w).len(),
        forall|k: int|
            0 <= k < steps_len(procs, id) ==> fields_of(v)[(#[trigger] procs[id].steps[k]).index as int]
                == fields_of(w)[procs[id].steps[k].index as int],
    ensures
        convert(procs, id, v) == convert(procs, id, w),
{
    lemma_convert_ignores_upto(procs, id, v, w, steps_len(procs, id));
}

proof fn lemma_convert_ignores_upto(procs: Map<nat, Proc>, id: nat, v: Val, w: Val, n: nat)
    requires
        v is Rec,
        w is Rec,
        fields_of(v).len() == fields_of(w).len(),
        n <= steps_len(procs, id),
        forall|k: int|
            0 <= k < steps_len(procs, id) ==> fields_of(v)[(#[trigger] procs[id].steps[k]).index as int]
                == fields_of(w)[procs[id].steps[k].index as int],
    ensures
        convert_upto(procs, id, v, n) == convert_upto(procs, id, w, n),
    decreases n,
{
    if n > 0 {
        lemma_convert_ignores_upto(procs, id, v, w, (n - 1) as nat);
        assert(procs[id].steps[n - 1] == procs[id].steps[n - 1]);
    }
}

/// A record type without steps (no fields, or all omitted) is left as it is
/// by every patch.
pub proof fn lemma_no_steps_no_change(procs: Map<nat, Proc>, id: nat, t: Val, p: Val)
    requires
        steps_len(procs, id) == 0,
    ensures
        update(procs, id, t, p) == t,
{
}

/// The procedure of a record with fields `fs` whose actions are `acts`:
/// `nested[k]` names the record type of the field of action `k` when that
/// field is recursively patched.
pub open spec fn proc_of(fs: Seq<FieldDecl>, acts: Seq<FieldAction>, nested: Seq<nat>) -> Proc {
    Proc {
        arity: fs.len(),
        steps: Seq::new(
            acts.len(),
            |k: int|
                Step {
                    index: acts[k].index as nat,
                    nested: if acts[k].kind == ActionKind::Patch {
                        Some(nested[k])
                    } else {
                        None
                    },
                },
        ),
    }
}

/// The procedure derived from a record's actions is well formed, and its
/// steps name exactly the fields that are not omitted.
pub proof fn lemma_derived_proc(fs: Seq<FieldDecl>, acts: Seq<FieldAction>, nested: Seq<nat>)
    requires
        actions_follow(fs, acts),
    ensures
        proc_wf(proc_of(fs, acts, nested)),
        forall|j: int|
            0 <= j < fs.len() ==> (is_omitted(#[trigger] fs[j]) <==> forall|k: int|
                0 <= k < acts.len() ==> proc_of(fs, acts, nested).steps[k].index != j),
{
    let pr = proc_of(fs, acts, nested);
    assert forall|j: int| 0 <= j < fs.len() implies (is_omitted(#[trigger] fs[j]) <==> forall|k: int|
        0 <= k < acts.len() ==> pr.steps[k].index != j) by {
        if !is_omitted(fs[j]) {
            assert(survives(fs, j));
            let k = choose|k: int| 0 <= k < acts.len() && (#[trigger] acts[k]).index == j;
            assert(pr.steps[k].index == j);
        } else {
            assert forall|k: int| 0 <= k < acts.len() implies pr.steps[k].index != j by {
                assert(!is_omitted(fs[acts[k].index as int]));
            }
        }
    }
}

/// An omitted field of a record keeps its value under every patch.
pub proof fn lemma_omitted_field_untouched(
    procs: Map<nat, Proc>,
    id: nat,
    fs: Seq<FieldDecl>,
    acts: Seq<FieldAction>,
    nested: Seq<nat>,
    t: Val,
    p: Val,
    j: int,
)
    requires
        actions_follow(fs, acts),
        procs.contains_key(id),
        procs[id] == proc_of(fs, acts, nested),
        conforms(procs, id, t),
        0 <= j < fs.len(),
        is_omitted(fs[j]),
    ensures
        fields_of(update(procs, id, t, p))[j] == fields_of(t)[j],
{
    lemma_derived_proc(fs, acts, nested);
    lemma_unnamed_field_untouched(procs, id, t, p, j);
}

/// The patch converted from a record never depends on its omitted fields.
pub proof fn lemma_convert_ignores_omitted(
    procs: Map<nat, Proc>,
    id: nat,
    fs: Seq<FieldDecl>,
    acts: Seq<FieldAction>,
    nested: Seq<nat>,
    v: Val,
    w: Val,
)
    requires
        actions_follow(fs, acts),
        procs.contains_key(id),
        procs[id] == proc_of(fs, acts, nested),
        conforms(procs, id, v),
        conforms(procs, id, w),
        forall|j: int| 0 <= j < fs.len() && !is_omitted(#[trigger] fs[j]) ==> fields_of(v)[j] == fields_of(w)[j],
    ensures
        convert(procs, id, v) == convert(procs, id, w),
{
    lemma_derived_proc(fs, acts, nested);
    assert forall|k: int| 0 <= k < steps_len(procs, id) implies fields_of(v)[(#[trigger] procs[id].steps[k]).index as int]
        == fields_of(w)[procs[id].steps[k].index as int] by {
        let i = acts[k].index as int;
        assert(!is_omitted(fs[i]));
    }
    lemma_convert_ignores_unnamed(procs, id, v, w);
}

/// Two targets that agree on every field some step names come out of the
/// same patch agreeing on those fields.
pub proof fn lemma_update_ignores_unnamed(
    procs: Map<nat, Proc>,
    id: nat,
    t1: Val,
    t2: Val,
    p: Val,
    k: int,
)
    requires
        procs_wf(procs),
        conforms(procs, id, t1),
        conforms(procs, id, t2),
        0 <= k < steps_len(procs, id),
        forall|l: int|
            0 <= l < steps_len(procs, id) ==> fields_of(t1)[(#[trigger] procs[id].steps[l]).index as int]
                == fields_of(t2)[procs[id].steps[l].index as int],
    ensures
        fields_of(update(procs, id, t1, p))[procs[id].steps[k].index as int] == fields_of(
            update(procs, id, t2, p),
        )[procs[id].steps[k].index as int],
{
    let full = steps_len(procs, id);
    assert(procs.contains_key(id));
    lemma_update_at(procs, id, t1, p, full, k);
    lemma_update_at(procs, id, t2, p, full, k);
    assert(fields_of(t1)[procs[id].steps[k].index as int] == fields_of(t2)[procs[id].steps[k].index as int]);
}

/// Two values of a record that differ only in omitted fields, patched with
/// the same patch, agree on every field that is not omitted, and each keeps
/// its own omitted fields.
pub proof fn lemma_update_ignores_omitted(
    procs: Map<nat, Proc>,
    id: nat,
    fs: Seq<FieldDecl>,
    acts: Seq<FieldAction>,
    nested: Seq<nat>,
    t1: Val,
    t2: Val,
    p: Val,
    j: int,
)
    requires
        actions_follow(fs, acts),
        procs_wf(procs),
        procs.contains_key(id),
        procs[id] == proc_of(fs, acts, nested),
        conforms(procs, id, t1),
        conforms(procs, id, t2),
        forall|i: int| 0 <= i < fs.len() && !is_omitted(#[trigger] fs[i]) ==> fields_of(t1)[i] == fields_of(t2)[i],
        0 <= j < fs.len(),
    ensures
        !is_omitted(fs[j]) ==> fields_of(update(procs, id, t1, p))[j] == fields_of(update(procs, id, t2, p))[j],
        is_omitted(fs[j]) ==> fields_of(update(procs, id, t1, p))[j] == fields_of(t1)[j],
        is_omitted(fs[j]) ==> fields_of(update(procs, id, t2, p))[j] == fields_of(t2)[j],
{
    lemma_derived_proc(fs, acts, nested);
    if is_omitted(fs[j]) {
        lemma_unnamed_field_untouched(procs, id, t1, p, j);
        lemma_unnamed_field_untouched(procs, id, t2, p, j);
    } else {
        assert(survives(fs, j));
        let k = choose|k: int| 0 <= k < acts.len() && (#[trigger] acts[k]).index == j;
        assert forall|l: int| 0 <= l < steps_len(procs, id) implies fields_of(t1)[(#[trigger] procs[id].steps[l]).index as int]
            == fields_of(t2)[procs[id].steps[l].index as int] by {
            assert(!is_omitted(fs[acts[l].index as int]));
        }
        lemma_update_ignores_unnamed(procs, id, t1, t2, p, k);
    }
}

} // verus!
