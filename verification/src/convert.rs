//! Moving between trees and the objects of an environment.
//!
//! `from_parse_object` stores a tree as new objects; `obj_tree` reads the tree
//! that an object stands for back out of the store, following references to a
//! depth of at most `f`.
use vstd::prelude::*;

use crate::float::FloatOps;
use crate::render::{obj_string, obj_text};
use crate::show::texts_by;
use crate::object::{refs_below, Env, EnvV, LispObject, ObjV, ObjectReference};
use crate::small::Name;
use crate::tree::{duplicate_opt_type, opt_tree_view, views, LispParseTree, TreeV};

verus! {

/// The tree that an object stands for, its references followed to a depth of
/// at most `f`; `None` where that does not reach every leaf. A builtin stands
/// for the atom `builtin`.
pub open spec fn obj_tree(s: EnvV, o: ObjV, f: nat) -> Option<TreeV>
    decreases f, 0int,
{
    match o {
        ObjV::Atom(n) => Some(TreeV::Atom(n)),
        ObjV::Integer(i) => Some(TreeV::Integer(i)),
        ObjV::Float(b) => Some(TreeV::Float(b)),
        ObjV::String(x) => Some(TreeV::String(x)),
        ObjV::Dyadic(_) | ObjV::Monadic(_) | ObjV::Vararg(_) => Some(TreeV::Atom("builtin"@)),
        ObjV::Pair(a, b) => if f == 0 {
            None
        } else {
            match (obj_tree(s, s.obj(a), (f - 1) as nat), obj_tree(s, s.obj(b), (f - 1) as nat)) {
                (Some(x), Some(y)) => Some(TreeV::Pair(Box::new(x), Box::new(y))),
                _ => None,
            }
        },
        ObjV::Array(xs) => match if f == 0 { None } else { ref_trees(s, xs, 0, Seq::empty(), (f - 1) as nat) } {
            Some(ts) => Some(TreeV::Array(ts)),
            None => None,
        },
        ObjV::Lambda { params, ret_ty, body } => match if f == 0 { None } else { ref_trees(s, body, 0, Seq::empty(), (f - 1) as nat) } {
            Some(ts) => Some(TreeV::Lambda { params, ret_ty, body: ts }),
            None => None,
        },
        ObjV::Macro { names, code } => match if f == 0 { None } else { ref_trees(s, code, 0, Seq::empty(), (f - 1) as nat) } {
            Some(ts) => Some(TreeV::Macro { names, code: ts }),
            None => None,
        },
        ObjV::Quote(r) => if f == 0 {
            None
        } else {
            match obj_tree(s, s.obj(r), (f - 1) as nat) {
                Some(x) => Some(TreeV::Quote(Box::new(x))),
                None => None,
            }
        },
        ObjV::Quasiquote(r) => if f == 0 {
            None
        } else {
            match obj_tree(s, s.obj(r), (f - 1) as nat) {
                Some(x) => Some(TreeV::Quasiquote(Box::new(x))),
                None => None,
            }
        },
        ObjV::Unquote(r) => if f == 0 {
            None
        } else {
            match obj_tree(s, s.obj(r), (f - 1) as nat) {
                Some(x) => Some(TreeV::Unquote(Box::new(x))),
                None => None,
            }
        },
    }
}

/// The trees of `xs[i..]`, each to a depth of at most `g`, after those in `acc`.
pub open spec fn ref_trees(s: EnvV, xs: Seq<ObjectReference>, i: int, acc: Seq<TreeV>, g: nat) -> Option<Seq<TreeV>>
    decreases g, xs.len() - i,
{
    if i < 0 || i >= xs.len() {
        Some(acc)
    } else {
        match obj_tree(s, s.obj(xs[i]), g) {
            Some(t) => ref_trees(s, xs, i + 1, acc.push(t), g),
            None => None,
        }
    }
}

/// The tree of an object to a depth of at most `f`, or `None`.
pub fn tree_within(env: &Env, o: &LispObject, f: u64) -> (r: Option<LispParseTree>)
    requires
        env@.wf(),
        refs_below(o@, env@.objects.len()),
    ensures
        opt_tree_view(r) == obj_tree(env@, o@, f as nat),
    decreases f, 1int,
{
    match o {
        LispObject::Atom(n) => Some(LispParseTree::Atom(n.duplicate())),
        LispObject::Integer(i) => Some(LispParseTree::Integer(*i)),
        LispObject::Float(b) => Some(LispParseTree::Float(*b)),
        LispObject::String(x) => Some(LispParseTree::String(x.clone())),
        LispObject::BuiltinDyadic(_) | LispObject::BuiltinMonadic(_) | LispObject::BuiltinVarargMacro(_) => Some(
            LispParseTree::Atom(Name::new("builtin")),
        ),
        LispObject::Pair(a, b) => {
            if f == 0 {
                return None;
            }
            let x = tree_within(env, env.get(*a), f - 1);
            let y = tree_within(env, env.get(*b), f - 1);
            match (x, y) {
                (Some(x), Some(y)) => Some(LispParseTree::Pair(Box::new(x), Box::new(y))),
                _ => None,
            }
        },
        LispObject::Array(xs) => match trees_within(env, xs, f) {
            Some(ts) => {
                let r = LispParseTree::Array(ts);
                assert(r@->Array_0 =~= views(ts@));
                Some(r)
            },
            None => None,
        },
        LispObject::Lambda { params, ret_ty, body } => match trees_within(env, body, f) {
            Some(ts) => {
                let r = LispParseTree::Lambda { params: params.duplicate(), ret_ty: duplicate_opt_type(ret_ty), body: ts };
                assert(r@->body =~= views(ts@));
                Some(r)
            },
            None => None,
        },
        LispObject::Macro { params, body } => match trees_within(env, body, f) {
            Some(ts) => {
                let r = LispParseTree::Macro { params: params.duplicate(), body: ts };
                assert(r@->code =~= views(ts@));
                Some(r)
            },
            None => None,
        },
        LispObject::Quote(a) => {
            if f == 0 {
                return None;
            }
            match tree_within(env, env.get(*a), f - 1) {
                Some(x) => Some(LispParseTree::Quote(Box::new(x))),
                None => None,
            }
        },
        LispObject::Quasiquote(a) => {
            if f == 0 {
                return None;
            }
            match tree_within(env, env.get(*a), f - 1) {
                Some(x) => Some(LispParseTree::Quasiquote(Box::new(x))),
                None => None,
            }
        },
        LispObject::Unquote(a) => {
            if f == 0 {
                return None;
            }
            match tree_within(env, env.get(*a), f - 1) {
                Some(x) => Some(LispParseTree::Unquote(Box::new(x))),
                None => None,
            }
        },
    }
}

fn trees_within(env: &Env, xs: &Vec<ObjectReference>, f: u64) -> (r: Option<Vec<LispParseTree>>)
    requires
        env@.wf(),
        forall|i: int| 0 <= i < xs@.len() ==> env@.valid(#[trigger] xs@[i]),
    ensures
        opt_trees_view(r) == (if f == 0 { None } else { ref_trees(env@, xs@, 0, Seq::empty(), (f - 1) as nat) }),
    decreases f, 0int,
{
    if f == 0 {
        return None;
    }
    let mut out: Vec<LispParseTree> = Vec::new();
    let mut i: usize = 0;
    assert(views(out@) =~= Seq::<TreeV>::empty());
    while i < xs.len()
        invariant
            f > 0,
            i <= xs@.len(),
            env@.wf(),
            forall|j: int| 0 <= j < xs@.len() ==> env@.valid(#[trigger] xs@[j]),
            ref_trees(env@, xs@, 0, Seq::empty(), (f - 1) as nat) == ref_trees(env@, xs@, i as int, views(out@), (f - 1) as nat),
        decreases xs@.len() - i,
    {
        match tree_within(env, env.get(xs[i]), f - 1) {
            Some(t) => {
                let ghost before = out@;
                out.push(t);
                assert(views(out@) =~= views(before).push(t@));
            },
            None => {
                return None;
            },
        }
        i = i + 1;
    }
    Some(out)
}

/// What an optional list of trees is.
pub open spec fn opt_trees_view(r: Option<Vec<LispParseTree>>) -> Option<Seq<TreeV>> {
    match r {
        Some(ts) => Some(views(ts@)),
        None => None,
    }
}

/// The environment after storing a tree as new objects, and the reference to
/// its root: the parts of a node are stored before the node, from left to right.
pub open spec fn from_tree(s: EnvV, t: TreeV) -> (EnvV, ObjectReference)
    decreases t, 0int,
{
    match t {
        TreeV::Atom(n) => stored(s, ObjV::Atom(n)),
        TreeV::Integer(i) => stored(s, ObjV::Integer(i)),
        TreeV::Float(b) => stored(s, ObjV::Float(b)),
        TreeV::String(x) => stored(s, ObjV::String(x)),
        TreeV::Pair(a, b) => {
            let (s1, ra) = from_tree(s, *a);
            let (s2, rb) = from_tree(s1, *b);
            stored(s2, ObjV::Pair(ra, rb))
        },
        TreeV::Array(items) => {
            let (s1, rs) = from_trees(s, items, 0, Seq::empty());
            stored(s1, ObjV::Array(rs))
        },
        TreeV::Lambda { params, ret_ty, body } => {
            let (s1, rs) = from_trees(s, body, 0, Seq::empty());
            stored(s1, ObjV::Lambda { params, ret_ty, body: rs })
        },
        TreeV::Macro { names, code } => {
            let (s1, rs) = from_trees(s, code, 0, Seq::empty());
            stored(s1, ObjV::Macro { names, code: rs })
        },
        TreeV::Quote(a) => {
            let (s1, r) = from_tree(s, *a);
            stored(s1, ObjV::Quote(r))
        },
        TreeV::Quasiquote(a) => {
            let (s1, r) = from_tree(s, *a);
            stored(s1, ObjV::Quasiquote(r))
        },
        TreeV::Unquote(a) => {
            let (s1, r) = from_tree(s, *a);
            stored(s1, ObjV::Unquote(r))
        },
    }
}

/// Stores `items[i..]` one after another, their references after those in `acc`.
pub open spec fn from_trees(s: EnvV, items: Seq<TreeV>, i: int, acc: Seq<ObjectReference>) -> (EnvV, Seq<ObjectReference>)
    decreases items, items.len() - i,
{
    if i < 0 || i >= items.len() {
        (s, acc)
    } else {
        let (s1, r) = from_tree(s, items[i]);
        from_trees(s1, items, i + 1, acc.push(r))
    }
}

/// A new object holding `o`, and the reference to it.
pub open spec fn stored(s: EnvV, o: ObjV) -> (EnvV, ObjectReference) {
    (s.with_object(o), ObjectReference(s.objects.len() as usize))
}

impl ObjectReference {
    /// Stores a tree in the environment as new objects; the reference to its root.
    pub fn from_parse_object(parse_object: LispParseTree, env: &mut Env) -> (r: ObjectReference)
        requires
            old(env)@.wf(),
        ensures
            (final(env)@, r) == from_tree(old(env)@, parse_object@),
            final(env)@.wf(),
            old(env)@.grows_to(final(env)@),
            final(env)@.valid(r),
    {
        store_tree(&parse_object, env)
    }
}

fn store_tree(t: &LispParseTree, env: &mut Env) -> (r: ObjectReference)
    requires
        old(env)@.wf(),
    ensures
        (final(env)@, r) == from_tree(old(env)@, t@),
        final(env)@.wf(),
        old(env)@.grows_to(final(env)@),
        final(env)@.valid(r),
    decreases t,
{
    match t {
        LispParseTree::Atom(n) => env.create_object(LispObject::Atom(n.duplicate())),
        LispParseTree::Integer(i) => env.create_object(LispObject::Integer(*i)),
        LispParseTree::Float(b) => env.create_object(LispObject::Float(*b)),
        LispParseTree::String(x) => env.create_object(LispObject::String(x.clone())),
        LispParseTree::Pair(a, b) => {
            let ra = store_tree(a, env);
            let rb = store_tree(b, env);
            env.create_object(LispObject::Pair(ra, rb))
        },
        LispParseTree::Array(v) => {
            assert(t@->Array_0 =~= views(v@));
            let rs = store_trees(v, env);
            env.create_object(LispObject::Array(rs))
        },
        LispParseTree::Lambda { params, ret_ty, body } => {
            assert(t@->body =~= views(body@));
            let rs = store_trees(body, env);
            env.create_object(LispObject::Lambda { params: params.duplicate(), ret_ty: duplicate_opt_type(ret_ty), body: rs })
        },
        LispParseTree::Macro { params, body } => {
            assert(t@->code =~= views(body@));
            let rs = store_trees(body, env);
            env.create_object(LispObject::Macro { params: params.duplicate(), body: rs })
        },
        LispParseTree::Quote(a) => {
            let r = store_tree(a, env);
            env.create_object(LispObject::Quote(r))
        },
        LispParseTree::Quasiquote(a) => {
            let r = store_tree(a, env);
            env.create_object(LispObject::Quasiquote(r))
        },
        LispParseTree::Unquote(a) => {
            let r = store_tree(a, env);
            env.create_object(LispObject::Unquote(r))
        },
    }
}

fn store_trees(v: &Vec<LispParseTree>, env: &mut Env) -> (rs: Vec<ObjectReference>)
    requires
        old(env)@.wf(),
    ensures
        (final(env)@, rs@) == from_trees(old(env)@, views(v@), 0, Seq::empty()),
        final(env)@.wf(),
        old(env)@.grows_to(final(env)@),
        forall|j: int| 0 <= j < rs@.len() ==> final(env)@.valid(#[trigger] rs@[j]),
    decreases v,
{
    let ghost s0 = env@;
    let mut rs: Vec<ObjectReference> = Vec::new();
    let mut i: usize = 0;
    while i < v.len()
        invariant
            i <= v@.len(),
            env@.wf(),
            s0.grows_to(env@),
            forall|j: int| 0 <= j < rs@.len() ==> env@.valid(#[trigger] rs@[j]),
            from_trees(s0, views(v@), 0, Seq::empty()) == from_trees(env@, views(v@), i as int, rs@),
        decreases v@.len() - i,
    {
        proof {
            assert(decreases_to!(v => v@[i as int]));
        }
        let ghost mid = env@;
        let r = store_tree(&v[i], env);
        proof {
            crate::object::lemma_grows_trans(s0, mid, env@);
        }
        rs.push(r);
        i = i + 1;
    }
    rs
}

/// The tree that an object stands for, its references followed; the tree must
/// be finite.
pub fn lisp_object_to_parse_tree(obj: &LispObject, env: &Env) -> (r: LispParseTree)
    requires
        env@.wf(),
        refs_below(obj@, env@.objects.len()),
        obj_tree(env@, obj@, u64::MAX as nat) is Some,
    ensures
        Some(r@) == obj_tree(env@, obj@, u64::MAX as nat),
{
    match tree_within(env, obj, u64::MAX) {
        Some(t) => t,
        None => LispParseTree::nil(),
    }
}

impl LispObject {
    /// The text of an object as values are printed (see `obj_text`): each of
    /// its floats is written as the text that `floats` gives for its bits.
    /// The object must be finite.
    pub fn display<F: FloatOps>(&self, env: &Env, floats: &F) -> (r: String)
        requires
            env@.wf(),
            refs_below(self@, env@.objects.len()),
            obj_tree(env@, self@, u64::MAX as nat) is Some,
        ensures
            exists|u: Seq<(u64, Seq<char>)>| #[trigger] texts_by(*floats, u) && forall|rest: Seq<(u64, Seq<char>)>|
                #[trigger] obj_text(env@, self@, u64::MAX as nat, u + rest) == Some((r@, rest)),
    {
        let (t, u) = obj_string(env, self, u64::MAX, floats);
        assert(texts_by(*floats, u@));
        t
    }
}

} // verus!
