//! The builtin forms `lambda`, `macro` and `defun`, which build functions out
//! of unevaluated code.
//!
//! `lambda` resolves the free variables of its body when it runs: an atom
//! bound in the innermost scope, and not a parameter of the function or of a
//! `lambda` or `macro` form nested in the body, is replaced by the object it
//! stands for. Quoted and quasiquoted code is left as it is.
use vstd::prelude::*;

use crate::args::{
    amp_first, lambda_params_ok, macro_params_ok, multiple_varargs_text, param_names,
    parse_lambda_args, parse_macro_args, split_at_amp, untyped_end_amp,
};
use crate::builtins::{fresh, Reply};
use crate::error::{ErrV, RuntimeError};
use crate::object::{
    assign, copy_refs, frame_lookup, lemma_grows_trans, lemma_obj_refs, res_view, Env, EnvV, LispObject, ObjV, ObjectReference,
};
use crate::parse::{same_text, type_of_name};
use crate::small::{Name, Names, TypedParam, TypedParams};
use crate::text::nil_text;
use crate::tree::{LispType, TypeV};

verus! {

/// How deep the resolution of a function body may reach.
pub const CAPTURE_DEPTH: u64 = 10000;

/// The texts of a list of names.
pub open spec fn names_view(ex: Vec<Name>) -> Seq<Seq<char>> {
    ex@.map_values(|n: Name| n@)
}

/// The parameter list and the rest of a nested `lambda` or `macro` form
/// `(h . t)`, when `h` is one of those atoms and `t` a pair.
pub open spec fn binder_params(s: EnvV, h: ObjectReference, t: ObjectReference) -> Option<(ObjectReference, ObjectReference)> {
    match s.obj(h) {
        ObjV::Atom(n) => if n == "lambda"@ || n == "macro"@ {
            match s.obj(t) {
                ObjV::Pair(p, rest) => Some((p, rest)),
                _ => None,
            }
        } else {
            None
        },
        _ => None,
    }
}

/// The name that an entry of a parameter list declares: an atom, or the atom
/// at the head of a typed entry; nothing for any other entry.
pub open spec fn item_name(s: EnvV, it: ObjectReference) -> Seq<char> {
    match s.obj(it) {
        ObjV::Atom(n) => n,
        ObjV::Pair(h, _) => match s.obj(h) {
            ObjV::Atom(n) => n,
            _ => Seq::empty(),
        },
        _ => Seq::empty(),
    }
}

/// The names that a parameter list declares, if it is an array.
pub open spec fn bound_names(s: EnvV, p: ObjectReference) -> Seq<Seq<char>> {
    match s.obj(p) {
        ObjV::Array(items) => Seq::new(items.len(), |i: int| item_name(s, items[i])),
        _ => Seq::empty(),
    }
}

/// Resolves the free variables of the code `o`, names in `ex` excepted, to a
/// depth of at most `g`: the environment with the new code stored, and the
/// reference to it, or `None` where the depth does not suffice.
pub open spec fn resolve(s: EnvV, o: ObjectReference, ex: Seq<Seq<char>>, g: nat) -> (EnvV, Option<ObjectReference>)
    decreases g, 0int,
{
    if g == 0 {
        (s, None)
    } else {
        match s.obj(o) {
            ObjV::Atom(n) => (s, Some(
                if ex.contains(n) {
                    o
                } else {
                    match frame_lookup(s.top(), n) {
                        Some(r) => r,
                        None => o,
                    }
                },
            )),
            ObjV::Pair(h, t) => {
                let (s1, rh) = resolve(s, h, ex, (g - 1) as nat);
                match rh {
                    None => (s1, None),
                    Some(h2) => match binder_params(s, h, t) {
                        Some((p, rest)) => {
                            let (s2, rr) = resolve_tail(s1, rest, ex + bound_names(s, p), (g - 1) as nat);
                            match rr {
                                None => (s2, None),
                                Some(r2) => {
                                    let s3 = s2.with_object(ObjV::Pair(p, r2));
                                    let q = ObjectReference(s2.objects.len() as usize);
                                    (s3.with_object(ObjV::Pair(h2, q)), Some(ObjectReference(s3.objects.len() as usize)))
                                },
                            }
                        },
                        None => {
                            let (s2, rt) = resolve_tail(s1, t, ex, (g - 1) as nat);
                            match rt {
                                None => (s2, None),
                                Some(t2) => (s2.with_object(ObjV::Pair(h2, t2)), Some(ObjectReference(s2.objects.len() as usize))),
                            }
                        },
                    },
                }
            },
            ObjV::Array(xs) => {
                let (s1, r) = resolve_elems(s, xs, 0, Seq::empty(), ex, (g - 1) as nat);
                match r {
                    None => (s1, None),
                    Some(ys) => (s1.with_object(ObjV::Array(ys)), Some(ObjectReference(s1.objects.len() as usize))),
                }
            },
            _ => (s, Some(o)),
        }
    }
}

/// Resolves the rest of a list: each item as code; a last tail that is not a
/// pair (`nil` for a proper list) is not code and stays as it is.
pub open spec fn resolve_tail(s: EnvV, o: ObjectReference, ex: Seq<Seq<char>>, g: nat) -> (EnvV, Option<ObjectReference>)
    decreases g, 0int,
{
    if g == 0 {
        (s, None)
    } else {
        match s.obj(o) {
            ObjV::Pair(h, t) => {
                let (s1, rh) = resolve(s, h, ex, (g - 1) as nat);
                match rh {
                    None => (s1, None),
                    Some(h2) => {
                        let (s2, rt) = resolve_tail(s1, t, ex, (g - 1) as nat);
                        match rt {
                            None => (s2, None),
                            Some(t2) => (s2.with_object(ObjV::Pair(h2, t2)), Some(ObjectReference(s2.objects.len() as usize))),
                        }
                    },
                }
            },
            _ => (s, Some(o)),
        }
    }
}

/// Resolves `xs[i..]` one after another, their results after those in `acc`.
pub open spec fn resolve_elems(
    s: EnvV,
    xs: Seq<ObjectReference>,
    i: int,
    acc: Seq<ObjectReference>,
    ex: Seq<Seq<char>>,
    g: nat,
) -> (EnvV, Option<Seq<ObjectReference>>)
    decreases g, xs.len() - i,
{
    if i < 0 || i >= xs.len() {
        (s, Some(acc))
    } else {
        let (s1, r) = resolve(s, xs[i], ex, g);
        match r {
            None => (s1, None),
            Some(y) => resolve_elems(s1, xs, i + 1, acc.push(y), ex, g),
        }
    }
}

/// Whether `n` is among the names of `ex`.
fn mentions(ex: &Vec<Name>, n: &Name) -> (r: bool)
    ensures
        r == names_view(*ex).contains(n@),
{
    let mut i: usize = 0;
    while i < ex.len()
        invariant
            i <= ex@.len(),
            forall|j: int| 0 <= j < i ==> names_view(*ex)[j] != n@,
        decreases ex@.len() - i,
    {
        if ex[i].same(n) {
            assert(names_view(*ex)[i as int] == n@);
            return true;
        }
        i = i + 1;
    }
    false
}

fn item_name_of(env: &Env, it: ObjectReference) -> (r: Name)
    requires
        env@.wf(),
        env@.valid(it),
    ensures
        r@ == item_name(env@, it),
{
    proof {
        reveal_strlit("");
    }
    match env.get(it) {
        LispObject::Atom(n) => n.duplicate(),
        LispObject::Pair(h, _) => match env.get(*h) {
            LispObject::Atom(n) => n.duplicate(),
            _ => Name::new(""),
        },
        _ => Name::new(""),
    }
}

/// `ex` followed by the names that the parameter list `p` declares.
fn extend_names(ex: &Vec<Name>, env: &Env, p: ObjectReference) -> (r: Vec<Name>)
    requires
        env@.wf(),
        env@.valid(p),
    ensures
        names_view(r) == names_view(*ex) + bound_names(env@, p),
{
    let mut out: Vec<Name> = Vec::new();
    let mut i: usize = 0;
    while i < ex.len()
        invariant
            i <= ex@.len(),
            names_view(out) == names_view(*ex).take(i as int),
        decreases ex@.len() - i,
    {
        let ghost before = out;
        out.push(ex[i].duplicate());
        assert(names_view(out) =~= names_view(before).push(ex@[i as int]@));
        assert(names_view(*ex).take(i + 1) =~= names_view(*ex).take(i as int).push(ex@[i as int]@));
        i = i + 1;
    }
    assert(names_view(*ex).take(ex@.len() as int) =~= names_view(*ex));
    let items = match env.get(p) {
        LispObject::Array(xs) => copy_refs(xs),
        _ => {
            assert(names_view(out) =~= names_view(*ex) + bound_names(env@, p));
            return out;
        },
    };
    let ghost base = names_view(out);
    let mut k: usize = 0;
    while k < items.len()
        invariant
            k <= items@.len(),
            env@.wf(),
            env@.valid(p),
            env@.obj(p) == ObjV::Array(items@),
            base == names_view(*ex),
            names_view(out) == base + Seq::new(k as nat, |j: int| item_name(env@, items@[j])),
        decreases items@.len() - k,
    {
        proof {
            lemma_obj_refs(env@, p);
            let v = env@.obj(p)->Array_0;
            assert(v == items@);
            assert(env@.valid(v[k as int]));
        }
        let ghost before = out;
        out.push(item_name_of(env, items[k]));
        assert(names_view(out) =~= names_view(before).push(item_name(env@, items@[k as int])));
        assert(names_view(out) =~= base + Seq::new((k + 1) as nat, |j: int| item_name(env@, items@[j])));
        k = k + 1;
    }
    assert(Seq::new(items@.len(), |j: int| item_name(env@, items@[j])) =~= bound_names(env@, p));
    out
}

/// The parameter list and rest of a nested `lambda` or `macro` form.
fn binder_of(env: &Env, h: ObjectReference, t: ObjectReference) -> (r: Option<(ObjectReference, ObjectReference)>)
    requires
        env@.wf(),
        env@.valid(h),
        env@.valid(t),
    ensures
        r == binder_params(env@, h, t),
        r matches Some((p, rest)) ==> env@.valid(p) && env@.valid(rest),
{
    match env.get(h) {
        LispObject::Atom(n) => {
            if n.is("lambda") || n.is("macro") {
                match env.get(t) {
                    LispObject::Pair(p, rest) => Some((*p, *rest)),
                    _ => None,
                }
            } else {
                None
            }
        },
        _ => None,
    }
}

fn resolve_obj(env: &mut Env, o: ObjectReference, ex: &Vec<Name>, g: u64) -> (r: Option<ObjectReference>)
    requires
        old(env)@.wf(),
        old(env)@.valid(o),
    ensures
        (final(env)@, r) == resolve(old(env)@, o, names_view(*ex), g as nat),
        final(env)@.wf(),
        old(env)@.grows_to(final(env)@),
        final(env)@.floats == old(env)@.floats,
        r matches Some(x) ==> final(env)@.valid(x),
    decreases g, 0int,
{
    if g == 0 {
        return None;
    }
    match env.get(o) {
        LispObject::Atom(n) => {
            let n = n.duplicate();
            if mentions(ex, &n) {
                return Some(o);
            }
            match env.get_local(&n) {
                Some(r) => Some(r),
                None => Some(o),
            }
        },
        LispObject::Pair(h, t) => {
            let h = *h;
            let t = *t;
            match binder_of(env, h, t) {
                Some((p, rest)) => {
                    let ex2 = extend_names(ex, env, p);
                    let h2 = match resolve_obj(env, h, ex, g - 1) {
                        Some(x) => x,
                        None => {
                            return None;
                        },
                    };
                    let r2 = match resolve_tail_exec(env, rest, &ex2, g - 1) {
                        Some(x) => x,
                        None => {
                            return None;
                        },
                    };
                    let q = env.create_object(LispObject::Pair(p, r2));
                    Some(env.create_object(LispObject::Pair(h2, q)))
                },
                None => {
                    let h2 = match resolve_obj(env, h, ex, g - 1) {
                        Some(x) => x,
                        None => {
                            return None;
                        },
                    };
                    let t2 = match resolve_tail_exec(env, t, ex, g - 1) {
                        Some(x) => x,
                        None => {
                            return None;
                        },
                    };
                    Some(env.create_object(LispObject::Pair(h2, t2)))
                },
            }
        },
        LispObject::Array(xs) => {
            let xs = copy_refs(xs);
            match resolve_elems_exec(env, &xs, ex, g - 1) {
                Some(ys) => Some(env.create_object(LispObject::Array(ys))),
                None => None,
            }
        },
        _ => Some(o),
    }
}

fn resolve_tail_exec(env: &mut Env, o: ObjectReference, ex: &Vec<Name>, g: u64) -> (r: Option<ObjectReference>)
    requires
        old(env)@.wf(),
        old(env)@.valid(o),
    ensures
        (final(env)@, r) == resolve_tail(old(env)@, o, names_view(*ex), g as nat),
        final(env)@.wf(),
        old(env)@.grows_to(final(env)@),
        final(env)@.floats == old(env)@.floats,
        r matches Some(x) ==> final(env)@.valid(x),
    decreases g, 0int,
{
    if g == 0 {
        return None;
    }
    match env.get(o) {
        LispObject::Pair(h, t) => {
            let h = *h;
            let t = *t;
            let h2 = match resolve_obj(env, h, ex, g - 1) {
                Some(x) => x,
                None => {
                    return None;
                },
            };
            let t2 = match resolve_tail_exec(env, t, ex, g - 1) {
                Some(x) => x,
                None => {
                    return None;
                },
            };
            Some(env.create_object(LispObject::Pair(h2, t2)))
        },
        _ => Some(o),
    }
}

fn resolve_elems_exec(env: &mut Env, xs: &Vec<ObjectReference>, ex: &Vec<Name>, g: u64) -> (r: Option<Vec<ObjectReference>>)
    requires
        old(env)@.wf(),
        forall|j: int| 0 <= j < xs@.len() ==> old(env)@.valid(#[trigger] xs@[j]),
    ensures
        (final(env)@, match r { Some(ys) => Some(ys@), None => None }) == resolve_elems(old(env)@, xs@, 0, Seq::empty(), names_view(*ex), g as nat),
        final(env)@.wf(),
        old(env)@.grows_to(final(env)@),
        final(env)@.floats == old(env)@.floats,
        r matches Some(ys) ==> forall|j: int| 0 <= j < ys@.len() ==> final(env)@.valid(#[trigger] ys@[j]),
    decreases g, 1int,
{
    let ghost s0 = env@;
    let mut ys: Vec<ObjectReference> = Vec::new();
    let mut i: usize = 0;
    while i < xs.len()
        invariant
            s0 == old(env)@,
            i <= xs@.len(),
            env@.wf(),
            s0.grows_to(env@),
            env@.floats == s0.floats,
            forall|j: int| 0 <= j < xs@.len() ==> s0.valid(#[trigger] xs@[j]),
            forall|j: int| 0 <= j < ys@.len() ==> env@.valid(#[trigger] ys@[j]),
            resolve_elems(s0, xs@, 0, Seq::empty(), names_view(*ex), g as nat) == resolve_elems(env@, xs@, i as int, ys@, names_view(*ex), g as nat),
        decreases xs@.len() - i,
    {
        let ghost mid = env@;
        let r = resolve_obj(env, xs[i], ex, g);
        proof {
            lemma_grows_trans(s0, mid, env@);
        }
        match r {
            Some(y) => {
                ys.push(y);
            },
            None => {
                assert(resolve_elems(mid, xs@, i as int, ys@, names_view(*ex), g as nat) == (env@, None::<Seq<ObjectReference>>));
                return None;
            },
        }
        i = i + 1;
    }
    Some(ys)
}

/// A parameter list entry: an atom, or a list of two atoms, a name and a type.
pub open spec fn param_item(s: EnvV, r: ObjectReference) -> Option<(Seq<char>, Option<TypeV>)> {
    match s.obj(r) {
        ObjV::Atom(n) => Some((n, None)),
        ObjV::Pair(h, t) => match (s.obj(h), s.obj(t)) {
            (ObjV::Atom(n), ObjV::Pair(h2, t2)) => match (s.obj(h2), s.obj(t2)) {
                (ObjV::Atom(ty), ObjV::Atom(e)) => if e == nil_text() {
                    Some((n, Some(type_of_name(ty))))
                } else {
                    None
                },
                _ => None,
            },
            _ => None,
        },
        _ => None,
    }
}

/// The entries `items[i..]` of a function's parameter list after those in
/// `acc`, or `None` if one of them is not a parameter.
pub open spec fn typed_params(s: EnvV, items: Seq<ObjectReference>, i: int, acc: Seq<(Seq<char>, Option<TypeV>)>) -> Option<Seq<(Seq<char>, Option<TypeV>)>>
    decreases items.len() - i,
{
    if i < 0 || i >= items.len() {
        Some(acc)
    } else {
        match param_item(s, items[i]) {
            Some(p) => typed_params(s, items, i + 1, acc.push(p)),
            None => None,
        }
    }
}

/// The entries `items[i..]` of a macro's parameter list after those in
/// `acc`, or `None` if one of them is not an atom.
pub open spec fn atom_names(s: EnvV, items: Seq<ObjectReference>, i: int, acc: Seq<Seq<char>>) -> Option<Seq<Seq<char>>>
    decreases items.len() - i,
{
    if i < 0 || i >= items.len() {
        Some(acc)
    } else {
        match s.obj(items[i]) {
            ObjV::Atom(n) => atom_names(s, items, i + 1, acc.push(n)),
            _ => None,
        }
    }
}

/// The declared return type of a function and where its body starts: after
/// `-> type` when the parameter list is followed by `->`, else right after it.
pub open spec fn return_type(s: EnvV, args: Seq<ObjectReference>) -> Result<(Option<TypeV>, int), Seq<char>> {
    if args.len() > 1 && s.obj(args[1]) == ObjV::Atom("->"@) {
        if args.len() > 2 {
            match s.obj(args[2]) {
                ObjV::Atom(t) => Ok((Some(type_of_name(t)), 3)),
                _ => Err("Missing return type after ->"@),
            }
        } else {
            Err("Missing return type after ->"@)
        }
    } else {
        Ok((None, 1))
    }
}

/// `(lambda params [-> type] body...)`: a new function. The parameter list is
/// an array of names and `(name type)` entries, with at most one `&` after
/// the variadic one; the body is not empty and has its free variables resolved.
pub open spec fn lambda_spec(s: EnvV, args: Seq<ObjectReference>) -> Reply {
    if args.len() == 0 {
        (s, Err(ErrV::BrokenLambda("Missing parameter list"@)))
    } else {
        match s.obj(args[0]) {
            ObjV::Array(items) => match typed_params(s, items, 0, Seq::empty()) {
                None => (s, Err(ErrV::BrokenLambda("Invalid parameter"@))),
                Some(ps) => match return_type(s, args) {
                    Err(m) => (s, Err(ErrV::BrokenLambda(m))),
                    Ok((ret, k)) => if k >= args.len() {
                        (s, Err(ErrV::BrokenLambda("Missing body"@)))
                    } else if amp_first(param_names(ps)) || !untyped_end_amp(ps) {
                        (s, Err(ErrV::BrokenLambda("Invalid var-args section"@)))
                    } else {
                        match split_at_amp(ps, param_names(ps)) {
                            Err(_) => (s, Err(ErrV::BrokenLambda(multiple_varargs_text()))),
                            Ok(a) => {
                                let (s1, rb) = resolve_elems(s, args.skip(k), 0, Seq::empty(), param_names(ps), CAPTURE_DEPTH as nat);
                                match rb {
                                    None => (s1, Err(ErrV::StackOverflow)),
                                    Some(body) => fresh(s1, ObjV::Lambda { params: a, ret_ty: ret, body }),
                                }
                            },
                        }
                    },
                },
            },
            _ => (s, Err(ErrV::BrokenLambda("Parameter list must be an array"@))),
        }
    }
}

/// `(macro params body...)`: a new macro. The parameter list is an array of
/// names with at most one `&` after the variadic one; the body is not empty
/// and is kept as it is.
pub open spec fn macro_spec(s: EnvV, args: Seq<ObjectReference>) -> Reply {
    if args.len() == 0 {
        (s, Err(ErrV::BrokenMacro("Missing parameter list"@)))
    } else {
        match s.obj(args[0]) {
            ObjV::Array(items) => match atom_names(s, items, 0, Seq::empty()) {
                None => (s, Err(ErrV::BrokenMacro("Invalid parameter"@))),
                Some(ns) => if args.len() == 1 {
                    (s, Err(ErrV::BrokenMacro("Missing body"@)))
                } else if amp_first(ns) {
                    (s, Err(ErrV::BrokenMacro("Invalid var-args section"@)))
                } else {
                    match split_at_amp(ns, ns) {
                        Err(_) => (s, Err(ErrV::BrokenMacro(multiple_varargs_text()))),
                        Ok(a) => fresh(s, ObjV::Macro { names: a, code: args.skip(1) }),
                    }
                },
            },
            _ => (s, Err(ErrV::BrokenMacro("Parameter list must be an array"@))),
        }
    }
}

/// `(defun name params [-> type] body...)`: the function that `lambda` builds
/// from the rest, assigned to the variable `name` as `set` would.
pub open spec fn defun_spec(s: EnvV, args: Seq<ObjectReference>) -> Reply {
    if args.len() == 0 {
        (s, Err(ErrV::BrokenLambda("Missing function name"@)))
    } else {
        match s.obj(args[0]) {
            ObjV::Atom(n) => {
                let (s1, r) = lambda_spec(s, args.skip(1));
                match r {
                    Err(e) => (s1, Err(e)),
                    Ok(l) => (assign(s1, n, s1.obj(l)), Ok(l)),
                }
            },
            _ => (s, Err(ErrV::BrokenLambda("Function name must be an atom"@))),
        }
    }
}

/// The type that a type name denotes.
fn type_named(n: &Name) -> (r: LispType)
    ensures
        r@ == type_of_name(n@),
{
    let s = n.as_str();
    if same_text(s, "i32") {
        LispType::Integer
    } else if same_text(s, "f64") {
        LispType::Float
    } else if same_text(s, "atom") {
        LispType::Atom
    } else {
        LispType::named(s)
    }
}

fn param_item_exec(env: &Env, r: ObjectReference) -> (p: Option<TypedParam>)
    requires
        env@.wf(),
        env@.valid(r),
    ensures
        match p {
            Some(x) => param_item(env@, r) == Some(crate::small::typed_param_view(x)),
            None => param_item(env@, r) is None,
        },
{
    proof {
        lemma_obj_refs(env@, r);
        crate::text::lemma_nil_literal();
    }
    match env.get(r) {
        LispObject::Atom(n) => Some((n.duplicate(), None)),
        LispObject::Pair(h, t) => {
            proof {
                lemma_obj_refs(env@, *t);
            }
            match (env.get(*h), env.get(*t)) {
                (LispObject::Atom(n), LispObject::Pair(h2, t2)) => match (env.get(*h2), env.get(*t2)) {
                    (LispObject::Atom(ty), LispObject::Atom(e)) => {
                        if e.is("nil") {
                            Some((n.duplicate(), Some(type_named(ty))))
                        } else {
                            None
                        }
                    },
                    _ => None,
                },
                _ => None,
            }
        },
        _ => None,
    }
}

/// The references `args[k..]`.
fn refs_from(args: &Vec<ObjectReference>, k: usize) -> (r: Vec<ObjectReference>)
    requires
        k <= args@.len(),
    ensures
        r@ == args@.skip(k as int),
{
    let mut r: Vec<ObjectReference> = Vec::new();
    let mut i = k;
    while i < args.len()
        invariant
            k <= i <= args@.len(),
            r@ == args@.subrange(k as int, i as int),
        decreases args@.len() - i,
    {
        r.push(args[i]);
        i = i + 1;
        assert(r@ =~= args@.subrange(k as int, i as int));
    }
    assert(r@ =~= args@.skip(k as int));
    r
}

/// Builds a function: see `lambda_spec`.
pub fn make_lambda(env: &mut Env, args: &Vec<ObjectReference>) -> (res: Result<ObjectReference, RuntimeError>)
    requires
        old(env)@.wf(),
        forall|j: int| 0 <= j < args@.len() ==> old(env)@.valid(#[trigger] args@[j]),
    ensures
        (final(env)@, res_view(res)) == lambda_spec(old(env)@, args@),
        final(env)@.wf(),
        old(env)@.grows_to(final(env)@),
        final(env)@.floats == old(env)@.floats,
        res matches Ok(x) ==> final(env)@.valid(x),
{
    let ghost s = env@;
    if args.len() == 0 {
        return Err(RuntimeError::BrokenLambda { msg: "Missing parameter list" });
    }
    proof {
        lemma_obj_refs(s, args@[0]);
    }
    let items = match env.get(args[0]) {
        LispObject::Array(xs) => copy_refs(xs),
        _ => {
            return Err(RuntimeError::BrokenLambda { msg: "Parameter list must be an array" });
        },
    };
    assert(s.obj(args@[0]) == ObjV::Array(items@));
    let mut v: Vec<TypedParam> = Vec::new();
    let mut i: usize = 0;
    assert(v@.map_values(|p: TypedParam| crate::small::typed_param_view(p)) =~= Seq::<(Seq<char>, Option<TypeV>)>::empty());
    while i < items.len()
        invariant
            env@ == s,
            s == old(env)@,
            args@.len() > 0,
            s.obj(args@[0]) == ObjV::Array(items@),
            s.wf(),
            i <= items@.len(),
            forall|j: int| 0 <= j < items@.len() ==> s.valid(#[trigger] items@[j]),
            typed_params(s, items@, 0, Seq::empty()) == typed_params(s, items@, i as int, v@.map_values(|p: TypedParam| crate::small::typed_param_view(p))),
        decreases items@.len() - i,
    {
        match param_item_exec(env, items[i]) {
            Some(p) => {
                let ghost before = v@;
                v.push(p);
                assert(v@.map_values(|p: TypedParam| crate::small::typed_param_view(p)) =~= before.map_values(|p: TypedParam| crate::small::typed_param_view(p)).push(crate::small::typed_param_view(p)));
            },
            None => {
                return Err(RuntimeError::BrokenLambda { msg: "Invalid parameter" });
            },
        }
        i = i + 1;
    }
    let ps = TypedParams::from_vec(v);
    assert(typed_params(s, items@, 0, Seq::empty()) == Some(ps@));
    let mut k: usize = 1;
    let mut ret: Option<LispType> = None;
    if args.len() > 1 {
        let arrow = match env.get(args[1]) {
            LispObject::Atom(a) => a.is("->"),
            _ => false,
        };
        proof {
            reveal_strlit("->");
        }
        if arrow {
            if args.len() > 2 {
                match env.get(args[2]) {
                    LispObject::Atom(t) => {
                        ret = Some(type_named(t));
                        k = 3;
                    },
                    _ => {
                        return Err(RuntimeError::BrokenLambda { msg: "Missing return type after ->" });
                    },
                }
            } else {
                return Err(RuntimeError::BrokenLambda { msg: "Missing return type after ->" });
            }
        } else {
            assert(s.obj(args@[1]) != ObjV::Atom("->"@));
        }
    }
    assert(return_type(s, args@) == Ok::<(Option<TypeV>, int), Seq<char>>((crate::tree::opt_type_view(ret), k as int)));
    if k >= args.len() {
        return Err(RuntimeError::BrokenLambda { msg: "Missing body" });
    }
    if !lambda_params_ok(&ps) {
        return Err(RuntimeError::BrokenLambda { msg: "Invalid var-args section" });
    }
    let mut names: Vec<Name> = Vec::new();
    let mut j: usize = 0;
    while j < ps.len()
        invariant
            j <= ps@.len(),
            names_view(names) == param_names(ps@).take(j as int),
        decreases ps@.len() - j,
    {
        let ghost before = names;
        names.push(ps.get(j).0.duplicate());
        assert(names_view(names) =~= names_view(before).push(ps@[j as int].0));
        assert(param_names(ps@).take(j + 1) =~= param_names(ps@).take(j as int).push(ps@[j as int].0));
        j = j + 1;
    }
    assert(param_names(ps@).take(ps@.len() as int) =~= param_names(ps@));
    let params = match parse_lambda_args(ps) {
        Ok(a) => a,
        Err(m) => {
            return Err(RuntimeError::BrokenLambda { msg: m });
        },
    };
    let src = refs_from(args, k);
    let body = match resolve_elems_exec(env, &src, &names, CAPTURE_DEPTH) {
        Some(b) => b,
        None => {
            return Err(RuntimeError::StackOverflow);
        },
    };
    Ok(env.create_object(LispObject::Lambda { params, ret_ty: ret, body }))
}

/// Builds a macro: see `macro_spec`.
pub fn make_macro(env: &mut Env, args: &Vec<ObjectReference>) -> (res: Result<ObjectReference, RuntimeError>)
    requires
        old(env)@.wf(),
        forall|j: int| 0 <= j < args@.len() ==> old(env)@.valid(#[trigger] args@[j]),
    ensures
        (final(env)@, res_view(res)) == macro_spec(old(env)@, args@),
        final(env)@.wf(),
        old(env)@.grows_to(final(env)@),
        final(env)@.floats == old(env)@.floats,
        res matches Ok(x) ==> final(env)@.valid(x),
{
    let ghost s = env@;
    if args.len() == 0 {
        return Err(RuntimeError::BrokenMacro { msg: "Missing parameter list" });
    }
    proof {
        lemma_obj_refs(s, args@[0]);
    }
    let items = match env.get(args[0]) {
        LispObject::Array(xs) => copy_refs(xs),
        _ => {
            return Err(RuntimeError::BrokenMacro { msg: "Parameter list must be an array" });
        },
    };
    assert(s.obj(args@[0]) == ObjV::Array(items@));
    let mut v: Vec<Name> = Vec::new();
    let mut i: usize = 0;
    assert(names_view(v) =~= Seq::<Seq<char>>::empty());
    while i < items.len()
        invariant
            env@ == s,
            s == old(env)@,
            args@.len() > 0,
            s.obj(args@[0]) == ObjV::Array(items@),
            s.wf(),
            i <= items@.len(),
            forall|j: int| 0 <= j < items@.len() ==> s.valid(#[trigger] items@[j]),
            atom_names(s, items@, 0, Seq::empty()) == atom_names(s, items@, i as int, names_view(v)),
        decreases items@.len() - i,
    {
        match env.get(items[i]) {
            LispObject::Atom(n) => {
                let ghost before = v;
                v.push(n.duplicate());
                assert(names_view(v) =~= names_view(before).push(s.obj(items@[i as int])->Atom_0));
            },
            _ => {
                return Err(RuntimeError::BrokenMacro { msg: "Invalid parameter" });
            },
        }
        i = i + 1;
    }
    let ns = Names::from_vec(v);
    assert(ns@ == names_view(v));
    if args.len() == 1 {
        return Err(RuntimeError::BrokenMacro { msg: "Missing body" });
    }
    if !macro_params_ok(&ns) {
        return Err(RuntimeError::BrokenMacro { msg: "Invalid var-args section" });
    }
    let params = match parse_macro_args(ns) {
        Ok(a) => a,
        Err(m) => {
            return Err(RuntimeError::BrokenMacro { msg: m });
        },
    };
    let body = refs_from(args, 1);
    Ok(env.create_object(LispObject::Macro { params, body }))
}

/// Builds a function and assigns it to a variable: see `defun_spec`.
pub fn make_defun(env: &mut Env, args: &Vec<ObjectReference>) -> (res: Result<ObjectReference, RuntimeError>)
    requires
        old(env)@.wf(),
        forall|j: int| 0 <= j < args@.len() ==> old(env)@.valid(#[trigger] args@[j]),
    ensures
        (final(env)@, res_view(res)) == defun_spec(old(env)@, args@),
        final(env)@.wf(),
        old(env)@.grows_to(final(env)@),
        final(env)@.floats == old(env)@.floats,
        res matches Ok(x) ==> final(env)@.valid(x),
{
    if args.len() == 0 {
        return Err(RuntimeError::BrokenLambda { msg: "Missing function name" });
    }
    let name = match env.get(args[0]) {
        LispObject::Atom(n) => n.duplicate(),
        _ => {
            return Err(RuntimeError::BrokenLambda { msg: "Function name must be an atom" });
        },
    };
    let rest = refs_from(args, 1);
    let ghost s = env@;
    let l = make_lambda(env, &rest)?;
    let ghost s1 = env@;
    proof {
        lemma_obj_refs(s1, l);
    }
    let val = env.get(l).duplicate();
    env.assign_var(&name, val);
    proof {
        lemma_grows_trans(s, s1, env@);
    }
    Ok(l)
}

} // verus!
