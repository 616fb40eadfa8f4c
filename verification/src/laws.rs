//! Properties of the interpreter as a whole, each stated over the spec
//! functions that the operations' contracts use.
use vstd::prelude::*;

use crate::error::ErrV;
use crate::convert::{from_tree, from_trees, obj_tree, ref_trees, stored};
use crate::object::{
    assign, Dyadic, initial_frame, builtin_names, builtin_objects, frame_lookup, initial_env, refs_below, stack_lookup, EnvV, FloatAnswer, ObjV, ObjectReference,
};
use crate::tree::TreeV;
use crate::semantics::{
    apply_spec, call_dyadic_spec, dyadic_spec, eval_inner_spec, eval_top_spec, EVAL_DEPTH,
};
use crate::render::{cdr_obj_text, obj_text, refs_text};
use crate::show::{cdr_text, texts_by, texts_from, tree_text};
use crate::float::FloatOps;
use crate::floattexts::{float_texts, law_one_text_per_tree};
use crate::text::{nil_text, t_text};

verus! {

/// A quoted expression evaluates to what it quotes, and evaluating it changes
/// nothing: evaluation does not go into it.
pub proof fn law_quote_gives_inner(s: EnvV, e: ObjectReference, d: nat, lq: Seq<FloatAnswer>)
    requires
        d > 0,
        s.obj(e) is Quote,
    ensures
        eval_top_spec(s, e, d, lq) == (s, Ok::<ObjectReference, ErrV>(s.obj(e)->Quote_0)),
{
    reveal(eval_top_spec);
}

/// A variable is read from the innermost scope alone: its value is the object
/// it is bound to there, and a variable bound only in outer scopes, or
/// nowhere, is undefined. Reading changes nothing.
pub proof fn law_variables_are_local(s: EnvV, e: ObjectReference, d: nat, lq: Seq<FloatAnswer>)
    requires
        d > 0,
        s.obj(e) is Atom,
    ensures
        eval_inner_spec(s, e, d, lq) == (s, match frame_lookup(s.top(), s.obj(e)->Atom_0) {
            Some(r) => Ok::<ObjectReference, ErrV>(r),
            None => Err(ErrV::UndefinedVariable(s.obj(e)->Atom_0)),
        }),
{
    reveal(eval_inner_spec);
}

/// After a variable is given a value, looking it up through the scopes finds
/// an object that holds that value. Where the variable was bound in the
/// innermost scope, or nowhere, the innermost scope now binds it to that object.
pub proof fn law_assign_then_lookup(s: EnvV, id: Seq<char>, val: ObjV)
    requires
        s.wf(),
        s.objects.len() < usize::MAX,
    ensures
        stack_lookup(assign(s, id, val).stack, id) matches Some(r) && assign(s, id, val).obj(r) == val,
        frame_lookup(s.top(), id) is Some || stack_lookup(s.stack, id) is None ==> frame_lookup(assign(s, id, val).top(), id) == stack_lookup(assign(s, id, val).stack, id),
{
    crate::object::lemma_lookup_valid(s, id);
    match stack_lookup(s.stack, id) {
        Some(r) => {
            let s2 = assign(s, id, val);
            assert(s2.stack == s.stack);
            assert(s2.obj(r) == val);
            assert(stack_lookup(s2.stack, id) == Some(r));
            if frame_lookup(s.top(), id) is Some {
                assert(stack_lookup(s.stack, id) == frame_lookup(s.top(), id));
            }
        },
        None => {
            let s2 = assign(s, id, val);
            let r = ObjectReference(s.objects.len() as usize);
            assert(s2.top() == s.top().push((id, r)));
            assert(frame_lookup(s2.top(), id) == Some(r));
            assert(s2.stack.last() == s2.top());
            assert(stack_lookup(s2.stack, id) == Some(r));
            assert(s2.obj(r) == val);
            assert(s2.stack.drop_last() =~= s.stack.drop_last());
        },
    }
}


/// Giving a bound variable a value changes the object it stands for in place:
/// every reference to that object, through whatever name or scope, sees the
/// new value, and every other object keeps its own. No scope changes.
pub proof fn law_assignment_seen_through_every_reference(s: EnvV, id: Seq<char>, val: ObjV, r: ObjectReference, q: ObjectReference)
    requires
        s.wf(),
        stack_lookup(s.stack, id) == Some(r),
        s.valid(q),
    ensures
        assign(s, id, val).obj(q) == (if q == r { val } else { s.obj(q) }),
        assign(s, id, val).stack == s.stack,
        assign(s, id, val).objects.len() == s.objects.len(),
{
    crate::object::lemma_lookup_valid(s, id);
}
} // verus!

verus! {

/// How deeply a tree nests: leaves are 0, a node one more than its deepest part.
pub open spec fn tree_depth(t: TreeV) -> nat
    decreases t, 1int,
{
    match t {
        TreeV::Pair(a, b) => 1 + max_nat(tree_depth(*a), tree_depth(*b)),
        TreeV::Array(items) => 1 + items_depth(items, 0),
        TreeV::Lambda { body, .. } => 1 + items_depth(body, 0),
        TreeV::Macro { code, .. } => 1 + items_depth(code, 0),
        TreeV::Quote(a) => 1 + tree_depth(*a),
        TreeV::Quasiquote(a) => 1 + tree_depth(*a),
        TreeV::Unquote(a) => 1 + tree_depth(*a),
        _ => 0,
    }
}

/// The greatest depth among `items[i..]`.
pub open spec fn items_depth(items: Seq<TreeV>, i: int) -> nat
    decreases items, items.len() - i,
{
    if i < 0 || i >= items.len() {
        0
    } else {
        max_nat(tree_depth(items[i]), items_depth(items, i + 1))
    }
}

pub open spec fn max_nat(a: nat, b: nat) -> nat {
    if a >= b {
        a
    } else {
        b
    }
}

/// `s2` holds the objects of `s` unchanged, and maybe more after them.
pub open spec fn keeps_objects(s: EnvV, s2: EnvV) -> bool {
    &&& s.objects.len() <= s2.objects.len()
    &&& forall|i: int| 0 <= i < s.objects.len() ==> s2.objects[i] == s.objects[i]
}

proof fn lemma_keeps_trans(a: EnvV, b: EnvV, c: EnvV)
    requires
        keeps_objects(a, b),
        keeps_objects(b, c),
    ensures
        keeps_objects(a, c),
{
    assert forall|i: int| 0 <= i < a.objects.len() implies c.objects[i] == a.objects[i] by {
        assert(c.objects[i] == b.objects[i]);
    }
}

proof fn lemma_stored(s: EnvV, o: ObjV)
    requires
        s.wf(),
        s.objects.len() < usize::MAX,
        refs_below(o, s.objects.len()),
    ensures
        stored(s, o).0.wf(),
        keeps_objects(s, stored(s, o).0),
        stored(s, o).0.valid(stored(s, o).1),
        stored(s, o).0.obj(stored(s, o).1) == o,
        stored(s, o).0.stack == s.stack,
        stored(s, o).0.objects.len() == s.objects.len() + 1,
{
    let s2 = stored(s, o).0;
    assert forall|i: int| 0 <= i < s2.objects.len() implies refs_below(#[trigger] s2.objects[i], s2.objects.len()) by {
        if i < s.objects.len() {
            crate::object::lemma_refs_below_mono(s.objects[i], s.objects.len(), s2.objects.len());
        }
    }
}

} // verus!

verus! {

/// How many objects storing a tree makes: one per node.
pub open spec fn tree_size(t: TreeV) -> nat
    decreases t, 1int,
{
    match t {
        TreeV::Pair(a, b) => 1 + tree_size(*a) + tree_size(*b),
        TreeV::Array(items) => 1 + items_size(items, 0),
        TreeV::Lambda { body, .. } => 1 + items_size(body, 0),
        TreeV::Macro { code, .. } => 1 + items_size(code, 0),
        TreeV::Quote(a) => 1 + tree_size(*a),
        TreeV::Quasiquote(a) => 1 + tree_size(*a),
        TreeV::Unquote(a) => 1 + tree_size(*a),
        _ => 1,
    }
}

/// How many objects storing `items[i..]` makes.
pub open spec fn items_size(items: Seq<TreeV>, i: int) -> nat
    decreases items, items.len() - i,
{
    if i < 0 || i >= items.len() {
        0
    } else {
        tree_size(items[i]) + items_size(items, i + 1)
    }
}

/// Storing a tree keeps the environment well formed and its objects as they
/// were, adds one object per node, and gives a valid reference.
proof fn lemma_from_tree(s: EnvV, t: TreeV)
    requires
        s.wf(),
        s.objects.len() + tree_size(t) <= usize::MAX,
    ensures
        from_tree(s, t).0.wf(),
        keeps_objects(s, from_tree(s, t).0),
        from_tree(s, t).0.objects.len() == s.objects.len() + tree_size(t),
        from_tree(s, t).0.valid(from_tree(s, t).1),
        from_tree(s, t).0.stack == s.stack,
    decreases t, 0int,
{
    match t {
        TreeV::Pair(a, b) => {
            lemma_from_tree(s, *a);
            let (s1, ra) = from_tree(s, *a);
            lemma_from_tree(s1, *b);
            let (s2, rb) = from_tree(s1, *b);
            lemma_keeps_trans(s, s1, s2);
            lemma_stored(s2, ObjV::Pair(ra, rb));
            lemma_keeps_trans(s, s2, stored(s2, ObjV::Pair(ra, rb)).0);
        },
        TreeV::Array(items) => {
            lemma_from_trees(s, items, 0, Seq::empty());
            let (s1, rs) = from_trees(s, items, 0, Seq::empty());
            lemma_stored(s1, ObjV::Array(rs));
            lemma_keeps_trans(s, s1, stored(s1, ObjV::Array(rs)).0);
        },
        TreeV::Lambda { params, ret_ty, body } => {
            lemma_from_trees(s, body, 0, Seq::empty());
            let (s1, rs) = from_trees(s, body, 0, Seq::empty());
            lemma_stored(s1, ObjV::Lambda { params, ret_ty, body: rs });
            lemma_keeps_trans(s, s1, stored(s1, ObjV::Lambda { params, ret_ty, body: rs }).0);
        },
        TreeV::Macro { names, code } => {
            lemma_from_trees(s, code, 0, Seq::empty());
            let (s1, rs) = from_trees(s, code, 0, Seq::empty());
            lemma_stored(s1, ObjV::Macro { names, code: rs });
            lemma_keeps_trans(s, s1, stored(s1, ObjV::Macro { names, code: rs }).0);
        },
        TreeV::Quote(a) => {
            lemma_from_tree(s, *a);
            let (s1, r) = from_tree(s, *a);
            lemma_stored(s1, ObjV::Quote(r));
            lemma_keeps_trans(s, s1, stored(s1, ObjV::Quote(r)).0);
        },
        TreeV::Quasiquote(a) => {
            lemma_from_tree(s, *a);
            let (s1, r) = from_tree(s, *a);
            lemma_stored(s1, ObjV::Quasiquote(r));
            lemma_keeps_trans(s, s1, stored(s1, ObjV::Quasiquote(r)).0);
        },
        TreeV::Unquote(a) => {
            lemma_from_tree(s, *a);
            let (s1, r) = from_tree(s, *a);
            lemma_stored(s1, ObjV::Unquote(r));
            lemma_keeps_trans(s, s1, stored(s1, ObjV::Unquote(r)).0);
        },
        TreeV::Atom(n) => lemma_stored(s, ObjV::Atom(n)),
        TreeV::Integer(i) => lemma_stored(s, ObjV::Integer(i)),
        TreeV::Float(b) => lemma_stored(s, ObjV::Float(b)),
        TreeV::String(x) => lemma_stored(s, ObjV::String(x)),
    }
}

/// Storing `items[i..]`: the same, with the references of the new objects
/// after those in `acc`, in order.
proof fn lemma_from_trees(s: EnvV, items: Seq<TreeV>, i: int, acc: Seq<ObjectReference>)
    requires
        s.wf(),
        0 <= i <= items.len(),
        forall|j: int| 0 <= j < acc.len() ==> s.valid(#[trigger] acc[j]),
        s.objects.len() + items_size(items, i) <= usize::MAX,
    ensures
        from_trees(s, items, i, acc).0.wf(),
        keeps_objects(s, from_trees(s, items, i, acc).0),
        from_trees(s, items, i, acc).0.objects.len() == s.objects.len() + items_size(items, i),
        from_trees(s, items, i, acc).1.len() == acc.len() + items.len() - i,
        from_trees(s, items, i, acc).1.take(acc.len() as int) == acc,
        forall|j: int| 0 <= j < from_trees(s, items, i, acc).1.len() ==> from_trees(s, items, i, acc).0.valid(#[trigger] from_trees(s, items, i, acc).1[j]),
        from_trees(s, items, i, acc).0.stack == s.stack,
    decreases items, items.len() - i,
{
    if i < items.len() {
        lemma_from_tree(s, items[i]);
        let (s1, r) = from_tree(s, items[i]);
        lemma_from_trees(s1, items, i + 1, acc.push(r));
        let (s2, rs) = from_trees(s1, items, i + 1, acc.push(r));
        lemma_keeps_trans(s, s1, s2);
        assert(rs.take(acc.len() as int) =~= rs.take(acc.len() + 1int).take(acc.len() as int));
        assert(acc.push(r).take(acc.len() as int) =~= acc);
    } else {
        assert(acc.take(acc.len() as int) =~= acc);
    }
}

/// The tree of an object does not change when objects are added after it.
proof fn lemma_obj_tree_frame(s: EnvV, s2: EnvV, o: ObjV, f: nat)
    requires
        s.wf(),
        keeps_objects(s, s2),
        refs_below(o, s.objects.len()),
    ensures
        obj_tree(s2, o, f) == obj_tree(s, o, f),
    decreases f, 0int,
{
    match o {
        ObjV::Pair(a, b) => if f > 0 {
            assert(s2.obj(a) == s.obj(a));
            assert(s2.obj(b) == s.obj(b));
            crate::object::lemma_obj_refs(s, a);
            crate::object::lemma_obj_refs(s, b);
            lemma_obj_tree_frame(s, s2, s.obj(a), (f - 1) as nat);
            lemma_obj_tree_frame(s, s2, s.obj(b), (f - 1) as nat);
        },
        ObjV::Array(xs) => if f > 0 {
            lemma_ref_trees_frame(s, s2, xs, 0, Seq::empty(), (f - 1) as nat);
        },
        ObjV::Lambda { body, .. } => if f > 0 {
            lemma_ref_trees_frame(s, s2, body, 0, Seq::empty(), (f - 1) as nat);
        },
        ObjV::Macro { code, .. } => if f > 0 {
            lemma_ref_trees_frame(s, s2, code, 0, Seq::empty(), (f - 1) as nat);
        },
        ObjV::Quote(a) => if f > 0 {
            assert(s2.obj(a) == s.obj(a));
            crate::object::lemma_obj_refs(s, a);
            lemma_obj_tree_frame(s, s2, s.obj(a), (f - 1) as nat);
        },
        ObjV::Quasiquote(a) => if f > 0 {
            assert(s2.obj(a) == s.obj(a));
            crate::object::lemma_obj_refs(s, a);
            lemma_obj_tree_frame(s, s2, s.obj(a), (f - 1) as nat);
        },
        ObjV::Unquote(a) => if f > 0 {
            assert(s2.obj(a) == s.obj(a));
            crate::object::lemma_obj_refs(s, a);
            lemma_obj_tree_frame(s, s2, s.obj(a), (f - 1) as nat);
        },
        _ => {},
    }
}

proof fn lemma_ref_trees_frame(s: EnvV, s2: EnvV, xs: Seq<ObjectReference>, i: int, acc: Seq<TreeV>, g: nat)
    requires
        s.wf(),
        keeps_objects(s, s2),
        forall|j: int| 0 <= j < xs.len() ==> (#[trigger] xs[j]).0 < s.objects.len(),
    ensures
        ref_trees(s2, xs, i, acc, g) == ref_trees(s, xs, i, acc, g),
    decreases g, xs.len() - i,
{
    if 0 <= i < xs.len() {
        assert(s.valid(xs[i]));
        assert(s2.obj(xs[i]) == s.obj(xs[i]));
        crate::object::lemma_obj_refs(s, xs[i]);
        lemma_obj_tree_frame(s, s2, s.obj(xs[i]), g);
        match obj_tree(s, s.obj(xs[i]), g) {
            Some(t) => lemma_ref_trees_frame(s, s2, xs, i + 1, acc.push(t), g),
            None => {},
        }
    }
}

} // verus!

verus! {

proof fn lemma_ref_trees_all(s: EnvV, rs: Seq<ObjectReference>, ts: Seq<TreeV>, j: int, g: nat)
    requires
        rs.len() == ts.len(),
        0 <= j <= rs.len(),
        forall|k: int| j <= k < rs.len() ==> obj_tree(s, s.obj(#[trigger] rs[k]), g) == Some(ts[k]),
    ensures
        ref_trees(s, rs, j, ts.take(j), g) == Some(ts),
    decreases rs.len() - j,
{
    if j < rs.len() {
        assert(obj_tree(s, s.obj(rs[j]), g) == Some(ts[j]));
        assert(ts.take(j).push(ts[j]) =~= ts.take(j + 1));
        lemma_ref_trees_all(s, rs, ts, j + 1, g);
    } else {
        assert(ts.take(j) =~= ts);
    }
}

proof fn lemma_items_depth(items: Seq<TreeV>, i: int, k: int)
    requires
        0 <= i <= k < items.len(),
    ensures
        items_depth(items, i) >= tree_depth(items[k]),
    decreases k - i,
{
    if i < k {
        lemma_items_depth(items, i + 1, k);
    }
}

proof fn lemma_read_back(s: EnvV, t: TreeV, f: nat)
    requires
        s.wf(),
        s.objects.len() + tree_size(t) <= usize::MAX,
        f >= tree_depth(t),
    ensures
        obj_tree(from_tree(s, t).0, from_tree(s, t).0.obj(from_tree(s, t).1), f) == Some(t),
    decreases t, 0int,
{
    lemma_from_tree(s, t);
    match t {
        TreeV::Pair(a, b) => {
            lemma_from_tree(s, *a);
            let (s1, ra) = from_tree(s, *a);
            lemma_from_tree(s1, *b);
            let (s2, rb) = from_tree(s1, *b);
            lemma_stored(s2, ObjV::Pair(ra, rb));
            let s3 = stored(s2, ObjV::Pair(ra, rb)).0;
            lemma_keeps_trans(s1, s2, s3);
            lemma_read_back(s, *a, (f - 1) as nat);
            lemma_read_back(s1, *b, (f - 1) as nat);
            crate::object::lemma_obj_refs(s1, ra);
            crate::object::lemma_obj_refs(s2, rb);
            assert(s3.obj(ra) == s1.obj(ra));
            assert(s3.obj(rb) == s2.obj(rb));
            lemma_obj_tree_frame(s1, s3, s1.obj(ra), (f - 1) as nat);
            lemma_obj_tree_frame(s2, s3, s2.obj(rb), (f - 1) as nat);
            assert(from_tree(s, t) == stored(s2, ObjV::Pair(ra, rb)));
            assert(s3.obj(stored(s2, ObjV::Pair(ra, rb)).1) == ObjV::Pair(ra, rb));
            assert(obj_tree(s3, s3.obj(ra), (f - 1) as nat) == Some(*a));
            assert(obj_tree(s3, s3.obj(rb), (f - 1) as nat) == Some(*b));
        },
        TreeV::Array(items) => {
            read_back_seq(s, items, f);
            lemma_from_trees(s, items, 0, Seq::empty());
            let (s1, rs) = from_trees(s, items, 0, Seq::empty());
            lemma_stored(s1, ObjV::Array(rs));
            let s2 = stored(s1, ObjV::Array(rs)).0;
            assert(from_tree(s, t) == stored(s1, ObjV::Array(rs)));
            assert(ref_trees(s2, rs, 0, Seq::empty(), (f - 1) as nat) == Some(items));
        },
        TreeV::Lambda { params, ret_ty, body } => {
            read_back_seq(s, body, f);
            lemma_from_trees(s, body, 0, Seq::empty());
            let (s1, rs) = from_trees(s, body, 0, Seq::empty());
            lemma_stored(s1, ObjV::Lambda { params, ret_ty, body: rs });
            let s2 = stored(s1, ObjV::Lambda { params, ret_ty, body: rs }).0;
            assert(from_tree(s, t) == stored(s1, ObjV::Lambda { params, ret_ty, body: rs }));
            assert(ref_trees(s2, rs, 0, Seq::empty(), (f - 1) as nat) == Some(body));
        },
        TreeV::Macro { names, code } => {
            read_back_seq(s, code, f);
            lemma_from_trees(s, code, 0, Seq::empty());
            let (s1, rs) = from_trees(s, code, 0, Seq::empty());
            lemma_stored(s1, ObjV::Macro { names, code: rs });
            let s2 = stored(s1, ObjV::Macro { names, code: rs }).0;
            assert(from_tree(s, t) == stored(s1, ObjV::Macro { names, code: rs }));
            assert(ref_trees(s2, rs, 0, Seq::empty(), (f - 1) as nat) == Some(code));
        },
        TreeV::Quote(a) => {
            lemma_from_tree(s, *a);
            let (s1, r) = from_tree(s, *a);
            lemma_stored(s1, ObjV::Quote(r));
            let s2 = stored(s1, ObjV::Quote(r)).0;
            lemma_read_back(s, *a, (f - 1) as nat);
            crate::object::lemma_obj_refs(s1, r);
            assert(s2.obj(r) == s1.obj(r));
            lemma_obj_tree_frame(s1, s2, s1.obj(r), (f - 1) as nat);
        },
        TreeV::Quasiquote(a) => {
            lemma_from_tree(s, *a);
            let (s1, r) = from_tree(s, *a);
            lemma_stored(s1, ObjV::Quasiquote(r));
            let s2 = stored(s1, ObjV::Quasiquote(r)).0;
            lemma_read_back(s, *a, (f - 1) as nat);
            crate::object::lemma_obj_refs(s1, r);
            assert(s2.obj(r) == s1.obj(r));
            lemma_obj_tree_frame(s1, s2, s1.obj(r), (f - 1) as nat);
        },
        TreeV::Unquote(a) => {
            lemma_from_tree(s, *a);
            let (s1, r) = from_tree(s, *a);
            lemma_stored(s1, ObjV::Unquote(r));
            let s2 = stored(s1, ObjV::Unquote(r)).0;
            lemma_read_back(s, *a, (f - 1) as nat);
            crate::object::lemma_obj_refs(s1, r);
            assert(s2.obj(r) == s1.obj(r));
            lemma_obj_tree_frame(s1, s2, s1.obj(r), (f - 1) as nat);
        },
        _ => {},
    }
}

/// The part of `lemma_read_back` for the items of an array, a function or a
/// macro: after they are stored and the node after them, reading the node's
/// references back gives the items.
proof fn read_back_seq(s: EnvV, items: Seq<TreeV>, f: nat)
    requires
        s.wf(),
        s.objects.len() + items_size(items, 0) + 1 <= usize::MAX,
        f >= 1 + items_depth(items, 0),
    ensures
        ({
            let (s1, rs) = from_trees(s, items, 0, Seq::empty());
            forall|s2: EnvV| s1.wf() && keeps_objects(s1, s2) ==> ref_trees(s2, rs, 0, Seq::empty(), (f - 1) as nat) == Some(items)
        }),
    decreases items, items.len() + 1,
{
    lemma_from_trees(s, items, 0, Seq::empty());
    lemma_read_back_items(s, items, 0, Seq::empty(), (f - 1) as nat);
    let (s1, rs) = from_trees(s, items, 0, Seq::empty());
    assert forall|s2: EnvV| s1.wf() && keeps_objects(s1, s2) implies ref_trees(s2, rs, 0, Seq::empty(), (f - 1) as nat) == Some(items) by {
        assert forall|k: int| 0 <= k < rs.len() implies obj_tree(s2, s2.obj(#[trigger] rs[k]), (f - 1) as nat) == Some(items[k]) by {
            assert(obj_tree(s1, s1.obj(rs[0 + k]), (f - 1) as nat) == Some(items[0 + k]));
            crate::object::lemma_obj_refs(s1, rs[k]);
            assert(s2.obj(rs[k]) == s1.obj(rs[k]));
            lemma_obj_tree_frame(s1, s2, s1.obj(rs[k]), (f - 1) as nat);
        }
        lemma_ref_trees_all(s2, rs, items, 0, (f - 1) as nat);
        assert(items.take(0) =~= Seq::<TreeV>::empty());
    }
}

proof fn lemma_read_back_items(s: EnvV, items: Seq<TreeV>, i: int, acc: Seq<ObjectReference>, g: nat)
    requires
        s.wf(),
        0 <= i <= items.len(),
        forall|j: int| 0 <= j < acc.len() ==> s.valid(#[trigger] acc[j]),
        s.objects.len() + items_size(items, i) <= usize::MAX,
        g >= items_depth(items, i),
    ensures
        forall|k: int| 0 <= k < items.len() - i ==> obj_tree(from_trees(s, items, i, acc).0, from_trees(s, items, i, acc).0.obj(#[trigger] from_trees(s, items, i, acc).1[acc.len() + k]), g) == Some(items[i + k]),
    decreases items, items.len() - i,
{
    if i < items.len() {
        lemma_items_depth(items, i, i);
        lemma_from_tree(s, items[i]);
        let (s1, r0) = from_tree(s, items[i]);
        lemma_read_back(s, items[i], g);
        lemma_from_trees(s1, items, i + 1, acc.push(r0));
        lemma_read_back_items(s1, items, i + 1, acc.push(r0), g);
        let (s2, rs) = from_trees(s1, items, i + 1, acc.push(r0));
        assert(rs[acc.len() as int] == acc.push(r0).take(acc.len() + 1int)[acc.len() as int]);
        crate::object::lemma_obj_refs(s1, r0);
        assert(s2.obj(r0) == s1.obj(r0));
        lemma_obj_tree_frame(s1, s2, s1.obj(r0), g);
        assert forall|k: int| 0 <= k < items.len() - i implies obj_tree(s2, s2.obj(#[trigger] rs[acc.len() + k]), g) == Some(items[i + k]) by {
            if k > 0 {
                assert(acc.push(r0).len() + (k - 1) == acc.len() + k);
                assert(obj_tree(s2, s2.obj(rs[acc.push(r0).len() + (k - 1)]), g) == Some(items[i + 1 + (k - 1)]));
            }
        }
    }
}

/// Storing a tree in an environment and reading back the tree of the object
/// that it became gives the same tree: each node becomes an object of its
/// own, and none is lost or shared.
pub proof fn law_store_then_read(s: EnvV, t: TreeV, f: nat)
    requires
        s.wf(),
        s.objects.len() + tree_size(t) <= usize::MAX,
        f >= tree_depth(t),
    ensures
        obj_tree(from_tree(s, t).0, from_tree(s, t).0.obj(from_tree(s, t).1), f) == Some(t),
{
    lemma_read_back(s, t, f);
}

} // verus!

verus! {

proof fn lemma_builtin_names_distinct()
    ensures
        forall|i: int, j: int| 0 <= i < j < 17 ==> builtin_names()[i] != builtin_names()[j],
        forall|i: int| 0 <= i < 17 ==> builtin_names()[i] != t_text() && builtin_names()[i] != nil_text(),
{
    reveal_strlit("declare");
    reveal_strlit("set");
    reveal_strlit("+");
    reveal_strlit("*");
    reveal_strlit("-");
    reveal_strlit("/");
    reveal_strlit("%");
    reveal_strlit("=");
    reveal_strlit("<");
    reveal_strlit(">");
    reveal_strlit("<=");
    reveal_strlit(">=");
    reveal_strlit("print");
    reveal_strlit("println");
    reveal_strlit("lambda");
    reveal_strlit("macro");
    reveal_strlit("defun");
    let n = builtin_names();
    assert forall|i: int| 0 <= i < 17 implies n[i] != t_text() && n[i] != nil_text() by {
        if n[i] == t_text() || n[i] == nil_text() {
            assert(n[i][0] == t_text()[0] || n[i][0] == nil_text()[0]);
        }
    }
    assert forall|i: int, j: int| 0 <= i < j < 17 implies n[i] != n[j] by {
        if n[i] == n[j] {
            assert(n[i].len() == n[j].len());
            assert(n[i][0] == n[j][0]);
            if n[i].len() > 1 {
                assert(n[i][1] == n[j][1]);
            }
            if n[i].len() > 5 {
                assert(n[i][5] == n[j][5]);
            }
        }
    }
}

} // verus!

verus! {

proof fn lemma_frame_lookup_at(f: Seq<(Seq<char>, ObjectReference)>, id: Seq<char>, k: int)
    requires
        0 <= k < f.len(),
        f[k].0 == id,
        forall|j: int| k < j < f.len() ==> (#[trigger] f[j]).0 != id,
    ensures
        frame_lookup(f, id) == Some(f[k].1),
    decreases f.len(),
{
    if f.len() - 1 > k {
        assert(f.last() == f[f.len() - 1]);
        let g = f.drop_last();
        assert(g[k] == f[k]);
        assert forall|j: int| k < j < g.len() implies (#[trigger] g[j]).0 != id by {
            assert(g[j] == f[j]);
        }
        lemma_frame_lookup_at(g, id, k);
    }
}

/// In the first scope, each builtin's name stands for the object of the same position.
pub proof fn lemma_builtin_lookup(k: int)
    requires
        0 <= k < 17,
    ensures
        frame_lookup(initial_frame(), builtin_names()[k]) == Some(ObjectReference(k as usize)),
{
    lemma_builtin_names_distinct();
    let f = initial_frame();
    assert(f.len() == 19);
    assert forall|j: int| k < j < f.len() implies (#[trigger] f[j]).0 != builtin_names()[k] by {
        if j < 17 {
            assert(f[j].0 == builtin_names()[j]);
        } else if j == 17 {
            assert(f[j].0 == t_text());
        } else {
            assert(f[j].0 == nil_text());
        }
    }
    assert(f[k] == (builtin_names()[k], ObjectReference(k as usize)));
    lemma_frame_lookup_at(f, builtin_names()[k], k);
}

/// The list `(name a b)` of an atom and two integers.
pub open spec fn call_of(name: Seq<char>, a: i32, b: i32) -> TreeV {
    TreeV::Pair(
        Box::new(TreeV::Atom(name)),
        Box::new(TreeV::Pair(
            Box::new(TreeV::Integer(a)),
            Box::new(TreeV::Pair(Box::new(TreeV::Integer(b)), Box::new(TreeV::Atom(nil_text())))),
        )),
    )
}

/// In a new environment, the call `(name a b)` of a builtin of two arguments
/// on two integer literals, once stored and evaluated, gives what that builtin
/// gives for the two integers, and nothing else happens before.
pub proof fn law_builtin_on_integers(k: int, f: Dyadic, a: i32, b: i32, lq: Seq<FloatAnswer>)
    requires
        0 <= k < 17,
        builtin_objects()[k] == ObjV::Dyadic(f),
    ensures
        ({
            let (s1, r) = from_tree(initial_env(), call_of(builtin_names()[k], a, b));
            eval_top_spec(s1, r, EVAL_DEPTH as nat, lq) == dyadic_spec(s1, f, ObjV::Integer(a), ObjV::Integer(b), lq)
        }),
{
    reveal(eval_top_spec);
    reveal(eval_inner_spec);
    reveal(apply_spec);
    reveal(call_dyadic_spec);
    let s0 = initial_env();
    let n = builtin_names()[k];
    assert(s0.objects.len() == 21);
    let tb = TreeV::Pair(Box::new(TreeV::Integer(b)), Box::new(TreeV::Atom(nil_text())));
    let ta = TreeV::Pair(Box::new(TreeV::Integer(a)), Box::new(tb));
    let t = call_of(n, a, b);
    let (sa, ra) = stored(s0, ObjV::Atom(n));
    let (sx, rx) = stored(sa, ObjV::Integer(a));
    let (sy, ry) = stored(sx, ObjV::Integer(b));
    let (sn, rn) = stored(sy, ObjV::Atom(nil_text()));
    let (sb, rb) = stored(sn, ObjV::Pair(ry, rn));
    let (sc, rc) = stored(sb, ObjV::Pair(rx, rb));
    let (s1, r) = stored(sc, ObjV::Pair(ra, rc));
    assert(from_tree(s0, TreeV::Atom(n)) == (sa, ra));
    assert(from_tree(sa, TreeV::Integer(a)) == (sx, rx));
    assert(from_tree(sx, TreeV::Integer(b)) == (sy, ry));
    assert(from_tree(sy, TreeV::Atom(nil_text())) == (sn, rn));
    assert(from_tree(sx, tb) == (sb, rb));
    assert(from_tree(sa, ta) == (sc, rc));
    assert(from_tree(s0, t) == (s1, r));
    assert(ra.0 == 21 && rx.0 == 22 && ry.0 == 23 && rn.0 == 24 && rb.0 == 25 && rc.0 == 26 && r.0 == 27);
    assert(s1.objects.len() == 28);
    assert(s1.obj(r) == ObjV::Pair(ra, rc));
    assert(s1.obj(rc) == ObjV::Pair(rx, rb));
    assert(s1.obj(rb) == ObjV::Pair(ry, rn));
    assert(s1.obj(ra) == ObjV::Atom(n));
    assert(s1.obj(rx) == ObjV::Integer(a));
    assert(s1.obj(ry) == ObjV::Integer(b));
    assert(s1.obj(ObjectReference(k as usize)) == ObjV::Dyadic(f));
    assert(s1.stack == s0.stack);
    assert(s1.top() == initial_frame());
    lemma_builtin_lookup(k);
    let d = EVAL_DEPTH as nat;
    assert(eval_inner_spec(s1, ra, (d - 2) as nat, lq) == (s1, Ok::<ObjectReference, ErrV>(ObjectReference(k as usize))));
    assert(eval_inner_spec(s1, rx, (d - 4) as nat, lq) == (s1, Ok::<ObjectReference, ErrV>(rx)));
    assert(eval_inner_spec(s1, ry, (d - 4) as nat, lq) == (s1, Ok::<ObjectReference, ErrV>(ry)));
    assert(call_dyadic_spec(s1, f, rc, (d - 3) as nat, lq) == dyadic_spec(s1, f, ObjV::Integer(a), ObjV::Integer(b), lq));
    assert(apply_spec(s1, ObjV::Dyadic(f), rc, r, (d - 2) as nat, lq) == call_dyadic_spec(s1, f, rc, (d - 3) as nat, lq));
    assert(eval_inner_spec(s1, r, (d - 1) as nat, lq) == apply_spec(s1, ObjV::Dyadic(f), rc, r, (d - 2) as nat, lq));
}

} // verus!

verus! {

/// Whether the objects reached from `o`, to a depth of at most `f`, are
/// written alike as objects and as trees: none is a function or a builtin.
pub open spec fn printable(s: EnvV, o: ObjV, f: nat) -> bool
    decreases f, 0int,
{
    match o {
        ObjV::Lambda { .. } | ObjV::Dyadic(_) | ObjV::Monadic(_) | ObjV::Vararg(_) => false,
        ObjV::Pair(a, b) => f > 0 && printable(s, s.obj(a), (f - 1) as nat) && printable(s, s.obj(b), (f - 1) as nat),
        ObjV::Array(xs) => f > 0 && all_printable(s, xs, 0, (f - 1) as nat),
        ObjV::Macro { code, .. } => f > 0 && all_printable(s, code, 0, (f - 1) as nat),
        ObjV::Quote(r) => f > 0 && printable(s, s.obj(r), (f - 1) as nat),
        ObjV::Quasiquote(r) => f > 0 && printable(s, s.obj(r), (f - 1) as nat),
        ObjV::Unquote(r) => f > 0 && printable(s, s.obj(r), (f - 1) as nat),
        _ => true,
    }
}

/// Whether the objects at `xs[i..]` are printable to a depth of at most `g`.
pub open spec fn all_printable(s: EnvV, xs: Seq<ObjectReference>, i: int, g: nat) -> bool
    decreases g, xs.len() - i,
{
    if i < 0 || i >= xs.len() {
        true
    } else {
        printable(s, s.obj(xs[i]), g) && all_printable(s, xs, i + 1, g)
    }
}

/// The trees of `xs[i..]` come after `acc`, one for each reference.
proof fn lemma_ref_trees_shape(s: EnvV, xs: Seq<ObjectReference>, i: int, acc: Seq<TreeV>, g: nat)
    requires
        0 <= i <= xs.len(),
        ref_trees(s, xs, i, acc, g) is Some,
    ensures
        ref_trees(s, xs, i, acc, g).unwrap().len() == acc.len() + xs.len() - i,
        ref_trees(s, xs, i, acc, g).unwrap().take(acc.len() as int) == acc,
        forall|j: int| i <= j < xs.len() ==> #[trigger] obj_tree(s, s.obj(xs[j]), g) == Some(
            ref_trees(s, xs, i, acc, g).unwrap()[acc.len() + j - i],
        ),
    decreases xs.len() - i,
{
    if i < xs.len() {
        let t = obj_tree(s, s.obj(xs[i]), g).unwrap();
        lemma_ref_trees_shape(s, xs, i + 1, acc.push(t), g);
        let ts = ref_trees(s, xs, i, acc, g).unwrap();
        let n = acc.len() as int;
        assert(ts.take(n + 1) == acc.push(t));
        assert(ts.take(n) =~= ts.take(n + 1).take(n));
        assert(ts.take(n + 1)[n] == t);
        assert(ts[n] == t);
        assert forall|j: int| i <= j < xs.len() implies #[trigger] obj_tree(s, s.obj(xs[j]), g) == Some(ts[n + j - i]) by {
            if j > i {
                assert(obj_tree(s, s.obj(xs[j]), g) == Some(ts[(n + 1) + j - (i + 1)]));
            }
        }
    } else {
        assert(acc.take(acc.len() as int) =~= acc);
    }
}

/// The object form and the tree form agree on a printable object.
proof fn lemma_obj_text_tree(s: EnvV, o: ObjV, f: nat, ft: Seq<(u64, Seq<char>)>)
    requires
        printable(s, o, f),
        obj_tree(s, o, f) is Some,
    ensures
        obj_text(s, o, f, ft) == Some(tree_text(obj_tree(s, o, f).unwrap(), ft)),
    decreases f, 0int,
{
    match o {
        ObjV::Pair(a, b) => {
            let ta = obj_tree(s, s.obj(a), (f - 1) as nat).unwrap();
            lemma_obj_text_tree(s, s.obj(a), (f - 1) as nat, ft);
            let ft1 = tree_text(ta, ft).1;
            lemma_cdr_text_tree(s, s.obj(b), (f - 1) as nat, ft1);
        },
        ObjV::Array(xs) => {
            assert(f > 0);
            assert(ref_trees(s, xs, 0, Seq::empty(), (f - 1) as nat) is Some);
            lemma_refs_text_trees(s, xs, 0, Seq::empty(), Seq::empty(), (f - 1) as nat, ft);
        },
        ObjV::Macro { names, code } => {
            assert(f > 0);
            assert(ref_trees(s, code, 0, Seq::empty(), (f - 1) as nat) is Some);
            lemma_refs_text_trees(s, code, 0, Seq::empty(), Seq::empty(), (f - 1) as nat, ft);
        },
        ObjV::Quote(r) => {
            lemma_obj_text_tree(s, s.obj(r), (f - 1) as nat, ft);
        },
        ObjV::Quasiquote(r) => {
            lemma_obj_text_tree(s, s.obj(r), (f - 1) as nat, ft);
        },
        ObjV::Unquote(r) => {
            lemma_obj_text_tree(s, s.obj(r), (f - 1) as nat, ft);
        },
        _ => {},
    }
}

/// The same for the rest of a list.
proof fn lemma_cdr_text_tree(s: EnvV, o: ObjV, f: nat, ft: Seq<(u64, Seq<char>)>)
    requires
        printable(s, o, f),
        obj_tree(s, o, f) is Some,
    ensures
        cdr_obj_text(s, o, f, ft) == Some(cdr_text(obj_tree(s, o, f).unwrap(), ft)),
    decreases f, 1int,
{
    match o {
        ObjV::Atom(n) => {},
        ObjV::Pair(a, b) => {
            let ta = obj_tree(s, s.obj(a), (f - 1) as nat).unwrap();
            lemma_obj_text_tree(s, s.obj(a), (f - 1) as nat, ft);
            let ft1 = tree_text(ta, ft).1;
            lemma_cdr_text_tree(s, s.obj(b), (f - 1) as nat, ft1);
        },
        _ => {
            lemma_obj_text_tree(s, o, f, ft);
        },
    }
}

/// The same for the items of an array or a macro body.
proof fn lemma_refs_text_trees(
    s: EnvV,
    xs: Seq<ObjectReference>,
    i: int,
    acc: Seq<Seq<char>>,
    acct: Seq<TreeV>,
    g: nat,
    ft: Seq<(u64, Seq<char>)>,
)
    requires
        0 <= i <= xs.len(),
        acct.len() == i,
        all_printable(s, xs, i, g),
        ref_trees(s, xs, i, acct, g) is Some,
    ensures
        refs_text(s, xs, i, acc, g, ft) == Some(texts_from(ref_trees(s, xs, i, acct, g).unwrap(), i, acc, ft)),
    decreases g, xs.len() - i,
{
    lemma_ref_trees_shape(s, xs, i, acct, g);
    let ts = ref_trees(s, xs, i, acct, g).unwrap();
    if i < xs.len() {
        let t = obj_tree(s, s.obj(xs[i]), g).unwrap();
        assert(obj_tree(s, s.obj(xs[i]), g) == Some(ts[acct.len() + i - i]));
        assert(ts[i] == t);
        lemma_obj_text_tree(s, s.obj(xs[i]), g, ft);
        let (x, ft1) = tree_text(t, ft);
        assert(ref_trees(s, xs, i + 1, acct.push(t), g) == Some(ts));
        lemma_refs_text_trees(s, xs, i + 1, acc.push(x), acct.push(t), g, ft1);
    }
}

/// Printing a value writes the text of its tree, where neither it nor any
/// value it reaches is a function or a builtin: each float takes the same text
/// in both, in the same order.
pub proof fn law_printing_writes_the_tree_text(s: EnvV, o: ObjV, f: nat, ft: Seq<(u64, Seq<char>)>)
    requires
        printable(s, o, f),
        obj_tree(s, o, f) is Some,
    ensures
        obj_text(s, o, f, ft) == Some(tree_text(obj_tree(s, o, f).unwrap(), ft)),
{
    lemma_obj_text_tree(s, o, f, ft);
}

/// Printing a value writes the text of its tree with each float written as
/// `floats` writes it: where neither the value nor any value it reaches is a
/// function or a builtin, float texts given by `floats` that printing the
/// value uses up exactly give the text of its tree written with the texts
/// that `floats` gives for the tree's floats.
pub proof fn law_printing_writes_the_tree_text_by<F: FloatOps>(
    s: EnvV,
    o: ObjV,
    f: nat,
    floats: F,
    u: Seq<(u64, Seq<char>)>,
    x: Seq<char>,
)
    requires
        printable(s, o, f),
        obj_tree(s, o, f) is Some,
        texts_by(floats, u),
        forall|rest: Seq<(u64, Seq<char>)>| #[trigger] obj_text(s, o, f, u + rest) == Some((x, rest)),
    ensures
        x == tree_text(obj_tree(s, o, f).unwrap(), float_texts(floats, obj_tree(s, o, f).unwrap())).0,
{
    let t = obj_tree(s, o, f).unwrap();
    assert forall|rest: Seq<(u64, Seq<char>)>| #[trigger] tree_text(t, u + rest) == (x, rest) by {
        law_printing_writes_the_tree_text(s, o, f, u + rest);
        assert(obj_text(s, o, f, u + rest) == Some((x, rest)));
    }
    law_one_text_per_tree(floats, t, u, x);
}

} // verus!
