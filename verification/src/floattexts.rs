//! The texts of the floats of a tree: writing a tree with the texts that a
//! `FloatOps` gives takes just those texts, in the order of the floats, and so
//! a tree has one text for each `FloatOps`.
use vstd::prelude::*;

use crate::float::FloatOps;
use crate::show::{cdr_text, lemma_texts_by_add, texts_by, texts_from, tree_text};
use crate::tree::TreeV;

verus! {

/// The float texts that writing `t` takes: for each float, in the order in
/// which it is written, its bits and the text that `floats` gives for them.
pub open spec fn float_texts<F: FloatOps>(floats: F, t: TreeV) -> Seq<(u64, Seq<char>)>
    decreases t, 0int,
{
    match t {
        TreeV::Float(b) => seq![(b, floats.text_of(b)@)],
        TreeV::Pair(a, b) => float_texts(floats, *a) + cdr_float_texts(floats, *b),
        TreeV::Quote(a) => float_texts(floats, *a),
        TreeV::Quasiquote(a) => float_texts(floats, *a),
        TreeV::Unquote(a) => float_texts(floats, *a),
        TreeV::Array(items) => items_float_texts(floats, items, 0),
        TreeV::Lambda { params, ret_ty, body } => items_float_texts(floats, body, 0),
        TreeV::Macro { names, code } => items_float_texts(floats, code, 0),
        _ => Seq::empty(),
    }
}

/// The float texts that writing the rest of a list, whose tail is `t`, takes.
pub open spec fn cdr_float_texts<F: FloatOps>(floats: F, t: TreeV) -> Seq<(u64, Seq<char>)>
    decreases t, 1int,
{
    match t {
        TreeV::Atom(_) => Seq::empty(),
        TreeV::Pair(a, b) => float_texts(floats, *a) + cdr_float_texts(floats, *b),
        _ => float_texts(floats, t),
    }
}

/// The float texts that writing `items[i..]` takes.
pub open spec fn items_float_texts<F: FloatOps>(floats: F, items: Seq<TreeV>, i: int) -> Seq<(u64, Seq<char>)>
    decreases items, items.len() - i,
{
    if 0 <= i < items.len() {
        float_texts(floats, items[i]) + items_float_texts(floats, items, i + 1)
    } else {
        Seq::empty()
    }
}

/// Whether `v` begins with `p`.
pub open spec fn begins_with(v: Seq<(u64, Seq<char>)>, p: Seq<(u64, Seq<char>)>) -> bool {
    p.len() <= v.len() && v.take(p.len() as int) == p
}

proof fn lemma_texts_by_skip<F: FloatOps>(floats: F, v: Seq<(u64, Seq<char>)>, n: int)
    requires
        texts_by(floats, v),
        0 <= n <= v.len(),
    ensures
        texts_by(floats, v.skip(n)),
{
    assert forall|j: int| 0 <= j < v.skip(n).len() implies (#[trigger] v.skip(n)[j]).1 == floats.text_of(v.skip(n)[j].0)@ by {
        assert(v.skip(n)[j] == v[n + j]);
    }
}

proof fn lemma_begins_split(v: Seq<(u64, Seq<char>)>, p: Seq<(u64, Seq<char>)>, q: Seq<(u64, Seq<char>)>)
    requires
        begins_with(v, p),
    ensures
        v =~= p + v.skip(p.len() as int),
        begins_with(v, p + q) <==> begins_with(v.skip(p.len() as int), q),
{
    assert(v =~= v.take(p.len() as int) + v.skip(p.len() as int));
    if begins_with(v, p + q) {
        assert(v.skip(p.len() as int).take(q.len() as int) =~= (p + q).subrange(p.len() as int, (p + q).len() as int));
        assert((p + q).subrange(p.len() as int, (p + q).len() as int) =~= q);
    }
    if begins_with(v.skip(p.len() as int), q) {
        assert(v.take((p + q).len() as int) =~= p + q);
    }
}

/// Writing `t` with its float texts followed by others takes just its own.
proof fn lemma_takes_own<F: FloatOps>(floats: F, t: TreeV, w: Seq<(u64, Seq<char>)>)
    ensures
        tree_text(t, float_texts(floats, t) + w) == (tree_text(t, float_texts(floats, t)).0, w),
        cdr_text(t, cdr_float_texts(floats, t) + w) == (cdr_text(t, cdr_float_texts(floats, t)).0, w),
    decreases t, 0int,
{
    let none = Seq::<(u64, Seq<char>)>::empty();
    match t {
        TreeV::Float(b) => {
            let c = float_texts(floats, t);
            assert((c + w)[0] == c[0]);
            assert((c + w).subrange(1, (c + w).len() as int) =~= w);
            assert(c.subrange(1, c.len() as int) =~= none);
        },
        TreeV::Pair(a, b) => {
            let ca = float_texts(floats, *a);
            let cb = cdr_float_texts(floats, *b);
            lemma_takes_own(floats, *a, cb + w);
            lemma_takes_own(floats, *a, cb);
            lemma_takes_own(floats, *b, w);
            lemma_takes_own(floats, *b, none);
            assert(ca + cb + w =~= ca + (cb + w));
            assert(cb + none =~= cb);
        },
        TreeV::Quote(a) => lemma_takes_own(floats, *a, w),
        TreeV::Quasiquote(a) => lemma_takes_own(floats, *a, w),
        TreeV::Unquote(a) => lemma_takes_own(floats, *a, w),
        TreeV::Array(items) => {
            lemma_items_take_own(floats, items, 0, Seq::empty(), w);
            lemma_items_take_own(floats, items, 0, Seq::empty(), none);
            assert(items_float_texts(floats, items, 0) + none =~= items_float_texts(floats, items, 0));
        },
        TreeV::Lambda { params, ret_ty, body } => {
            lemma_items_take_own(floats, body, 0, Seq::empty(), w);
            lemma_items_take_own(floats, body, 0, Seq::empty(), none);
            assert(items_float_texts(floats, body, 0) + none =~= items_float_texts(floats, body, 0));
        },
        TreeV::Macro { names, code } => {
            lemma_items_take_own(floats, code, 0, Seq::empty(), w);
            lemma_items_take_own(floats, code, 0, Seq::empty(), none);
            assert(items_float_texts(floats, code, 0) + none =~= items_float_texts(floats, code, 0));
        },
        _ => {
            assert(none + w =~= w);
        },
    }
    match t {
        TreeV::Atom(_) => {
            assert(none + w =~= w);
        },
        TreeV::Pair(a, b) => {},
        _ => {
            assert(float_texts(floats, t) + none =~= float_texts(floats, t));
        },
    }
}

proof fn lemma_items_take_own<F: FloatOps>(floats: F, items: Seq<TreeV>, i: int, acc: Seq<Seq<char>>, w: Seq<(u64, Seq<char>)>)
    requires
        0 <= i <= items.len(),
    ensures
        texts_from(items, i, acc, items_float_texts(floats, items, i) + w)
            == (texts_from(items, i, acc, items_float_texts(floats, items, i) + Seq::empty()).0, w),
    decreases items, items.len() - i,
{
    let none = Seq::<(u64, Seq<char>)>::empty();
    if i < items.len() {
        let c = float_texts(floats, items[i]);
        let r = items_float_texts(floats, items, i + 1);
        lemma_takes_own(floats, items[i], r + w);
        lemma_takes_own(floats, items[i], r + none);
        assert(c + r + w =~= c + (r + w));
        assert(c + r + none =~= c + (r + none));
        let x = tree_text(items[i], c).0;
        lemma_items_take_own(floats, items, i + 1, acc.push(x), w);
    } else {
        assert(none + w =~= w);
    }
}

/// Writing `t` with float texts given by `floats` that do not begin with its
/// own takes them all.
proof fn lemma_takes_all_else<F: FloatOps>(floats: F, t: TreeV, v: Seq<(u64, Seq<char>)>)
    requires
        texts_by(floats, v),
    ensures
        !begins_with(v, float_texts(floats, t)) ==> tree_text(t, v).1 == Seq::<(u64, Seq<char>)>::empty(),
        !begins_with(v, cdr_float_texts(floats, t)) ==> cdr_text(t, v).1 == Seq::<(u64, Seq<char>)>::empty(),
    decreases t, 0int,
{
    let none = Seq::<(u64, Seq<char>)>::empty();
    match t {
        TreeV::Float(b) => {
            let c = float_texts(floats, t);
            if v.len() > 0 && v[0].0 == b {
                assert(v[0].1 == floats.text_of(v[0].0)@);
                assert(v.take(1) =~= c);
            }
        },
        TreeV::Pair(a, b) => {
            let ca = float_texts(floats, *a);
            let cb = cdr_float_texts(floats, *b);
            lemma_takes_all_else(floats, *a, v);
            if begins_with(v, ca) {
                let v1 = v.skip(ca.len() as int);
                lemma_begins_split(v, ca, cb);
                lemma_takes_own(floats, *a, v1);
                lemma_texts_by_skip(floats, v, ca.len() as int);
                lemma_takes_all_else(floats, *b, v1);
            } else {
                lemma_begins_split_fail(v, ca, cb);
                crate::readback::lemma_no_texts_used(*b);
            }
        },
        TreeV::Quote(a) => lemma_takes_all_else(floats, *a, v),
        TreeV::Quasiquote(a) => lemma_takes_all_else(floats, *a, v),
        TreeV::Unquote(a) => lemma_takes_all_else(floats, *a, v),
        TreeV::Array(items) => lemma_items_take_all_else(floats, items, 0, Seq::empty(), v),
        TreeV::Lambda { params, ret_ty, body } => lemma_items_take_all_else(floats, body, 0, Seq::empty(), v),
        TreeV::Macro { names, code } => lemma_items_take_all_else(floats, code, 0, Seq::empty(), v),
        _ => {
            assert(v.take(0) =~= none);
        },
    }
    match t {
        TreeV::Atom(_) => {
            assert(v.take(0) =~= none);
        },
        TreeV::Pair(_, _) => {},
        _ => {
            assert(cdr_float_texts(floats, t) == float_texts(floats, t));
            assert(cdr_text(t, v).1 == tree_text(t, v).1);
        },
    }
}

proof fn lemma_begins_split_fail(v: Seq<(u64, Seq<char>)>, p: Seq<(u64, Seq<char>)>, q: Seq<(u64, Seq<char>)>)
    requires
        !begins_with(v, p),
    ensures
        !begins_with(v, p + q),
{
    if begins_with(v, p + q) {
        assert(v.take(p.len() as int) =~= (p + q).take(p.len() as int));
        assert((p + q).take(p.len() as int) =~= p);
    }
}

proof fn lemma_items_take_all_else<F: FloatOps>(floats: F, items: Seq<TreeV>, i: int, acc: Seq<Seq<char>>, v: Seq<(u64, Seq<char>)>)
    requires
        0 <= i <= items.len(),
        texts_by(floats, v),
    ensures
        !begins_with(v, items_float_texts(floats, items, i)) ==> texts_from(items, i, acc, v).1 == Seq::<(u64, Seq<char>)>::empty(),
    decreases items, items.len() - i,
{
    let none = Seq::<(u64, Seq<char>)>::empty();
    if i < items.len() {
        let c = float_texts(floats, items[i]);
        let r = items_float_texts(floats, items, i + 1);
        lemma_takes_all_else(floats, items[i], v);
        let (x, v1) = tree_text(items[i], v);
        if begins_with(v, c) {
            lemma_begins_split(v, c, r);
            lemma_takes_own(floats, items[i], v.skip(c.len() as int));
            lemma_texts_by_skip(floats, v, c.len() as int);
            lemma_items_take_all_else(floats, items, i + 1, acc.push(x), v.skip(c.len() as int));
        } else {
            lemma_begins_split_fail(v, c, r);
            lemma_items_empty_stays(items, i + 1, acc.push(x));
        }
    } else {
        assert(v.take(0) =~= none);
    }
}

proof fn lemma_items_empty_stays(items: Seq<TreeV>, i: int, acc: Seq<Seq<char>>)
    requires
        0 <= i <= items.len(),
    ensures
        texts_from(items, i, acc, Seq::empty()).1 == Seq::<(u64, Seq<char>)>::empty(),
    decreases items.len() - i,
{
    if i < items.len() {
        crate::readback::lemma_no_texts_used(items[i]);
        lemma_items_empty_stays(items, i + 1, acc.push(tree_text(items[i], Seq::empty()).0));
    }
}

/// A tree has one text for each `FloatOps`: float texts, each given by
/// `floats` for its bits, that writing `t` uses up exactly, whatever follows
/// them, are the texts of its floats in order, and the text written is the
/// one written with those.
pub proof fn law_one_text_per_tree<F: FloatOps>(floats: F, t: TreeV, u: Seq<(u64, Seq<char>)>, x: Seq<char>)
    requires
        texts_by(floats, u),
        forall|rest: Seq<(u64, Seq<char>)>| #[trigger] tree_text(t, u + rest) == (x, rest),
    ensures
        u == float_texts(floats, t),
        x == tree_text(t, float_texts(floats, t)).0,
{
    let rest0 = seq![(0u64, floats.text_of(0)@)];
    assert(texts_by(floats, rest0)) by {
        assert forall|j: int| 0 <= j < rest0.len() implies (#[trigger] rest0[j]).1 == floats.text_of(rest0[j].0)@ by {
            assert(rest0[j] == rest0[0]);
        }
    }
    lemma_texts_by_add(floats, u, rest0);
    let v = u + rest0;
    assert(tree_text(t, v) == (x, rest0));
    lemma_takes_all_else(floats, t, v);
    let c = float_texts(floats, t);
    assert(begins_with(v, c));
    lemma_begins_split(v, c, Seq::empty());
    lemma_takes_own(floats, t, v.skip(c.len() as int));
    assert(v.skip(c.len() as int) == rest0);
    assert(u.len() == c.len());
    assert(u =~= v.take(c.len() as int));
    lemma_takes_own(floats, t, Seq::empty());
    assert(c + Seq::<(u64, Seq<char>)>::empty() =~= c);
}

} // verus!
