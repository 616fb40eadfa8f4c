//! The steps of a call that evaluate nothing: walking an argument list,
//! binding arguments to parameters, and the builtins of one and two values.
use vstd::prelude::*;

use crate::builtins::{self, Reply};
use crate::convert::tree_within;
use crate::error::{ErrV, RuntimeError};
use crate::float::FloatOps;
use crate::object::{
    answers_agree, lemma_agree_trans,
    binding_view, extends, frame_view, lemma_grows_trans, lemma_obj_refs, res_view, Dyadic, Env,
    EnvV, FloatAnswer, Frame, LispObject, ObjV, ObjectReference,
};
use crate::semantics::{
    bind_lambda, bind_macro, dyadic_spec, first_bad, first_bad_all, guard, list_items,
    print_spec, zip, zip_names, TREE_DEPTH, WALK_LIMIT,
};
use crate::small::{Name, TypedParam};
use crate::tree::{opt_type_view, LambdaArgs, LispType, MacroArgs, TypeV};

verus! {

/// What the result of binding is.
pub open spec fn frame_res_view(r: Result<Frame, RuntimeError>) -> Result<Seq<(Seq<char>, ObjectReference)>, ErrV> {
    match r {
        Ok(f) => Ok(frame_view(f)),
        Err(e) => Err(e@),
    }
}

/// Whether every binding of a frame stands for a valid object.
pub open spec fn frame_valid(s: EnvV, f: Seq<(Seq<char>, ObjectReference)>) -> bool {
    forall|k: int| 0 <= k < f.len() ==> s.valid(#[trigger] f[k].1)
}

/// The items of the list at `cur`: see `list_items`.
pub fn list_items_exec(env: &Env, cur: ObjectReference) -> (r: Option<Vec<ObjectReference>>)
    requires
        env@.wf(),
        env@.valid(cur),
    ensures
        match r {
            Some(v) => list_items(env@, cur, Seq::empty(), WALK_LIMIT as nat) == Some(v@) && forall|j: int| 0 <= j < v@.len() ==> env@.valid(#[trigger] v@[j]),
            None => list_items(env@, cur, Seq::empty(), WALK_LIMIT as nat) is None,
        },
{
    let mut out: Vec<ObjectReference> = Vec::new();
    let mut c = cur;
    let mut k: u64 = WALK_LIMIT;
    loop
        invariant
            env@.wf(),
            env@.valid(c),
            forall|j: int| 0 <= j < out@.len() ==> env@.valid(#[trigger] out@[j]),
            list_items(env@, cur, Seq::empty(), WALK_LIMIT as nat) == list_items(env@, c, out@, k as nat),
        decreases k,
    {
        if k == 0 {
            return None;
        }
        proof {
            lemma_obj_refs(env@, c);
        }
        match env.get(c) {
            LispObject::Pair(a, n) => {
                out.push(*a);
                c = *n;
            },
            _ => {
                return Some(out);
            },
        }
        k = k - 1;
    }
}

/// The type error of `t` for the value at `r`, if any.
pub fn check_type(env: &Env, t: &Option<LispType>, r: ObjectReference) -> (e: Option<RuntimeError>)
    requires
        env@.wf(),
        env@.valid(r),
    ensures
        match e {
            Some(x) => guard(opt_type_view(*t), obj_type_of(env@, r)) == Some(x@),
            None => guard(opt_type_view(*t), obj_type_of(env@, r)) is None,
        },
{
    match t {
        Some(x) => {
            let actual = env.get(r).type_of();
            if x.same(&actual) {
                None
            } else {
                Some(RuntimeError::TypeError { expected: Some(x.duplicate()), actual: Some(actual) })
            }
        },
        None => None,
    }
}

pub open spec fn obj_type_of(s: EnvV, r: ObjectReference) -> TypeV {
    crate::object::obj_type(s.obj(r))
}

/// Binds `vals[from..from + ps.len()]` to the parameters `ps`, checking each
/// against its type, after the bindings already in `frame`.
fn bind_typed(env: &Env, ps: &crate::small::TypedParams, vals: &Vec<ObjectReference>, from: usize, frame: &mut Frame) -> (r: Option<RuntimeError>)
    requires
        env@.wf(),
        from + ps@.len() <= vals@.len(),
        forall|j: int| 0 <= j < vals@.len() ==> env@.valid(#[trigger] vals@[j]),
        frame_valid(env@, frame_view(*old(frame))),
    ensures
        match r {
            Some(e) => first_bad(env@, ps@, vals@.subrange(from as int, from + ps@.len()), 0) == Some(e@),
            None => first_bad(env@, ps@, vals@.subrange(from as int, from + ps@.len()), 0) is None
                && frame_view(*final(frame)) == frame_view(*old(frame)) + zip(ps@, vals@.subrange(from as int, from + ps@.len())),
        },
        frame_valid(env@, frame_view(*final(frame))),
{
    let ghost vs = vals@.subrange(from as int, from + ps@.len());
    let ghost base = frame_view(*frame);
    let nv = vals.len();
    let mut i: usize = 0;
    while i < ps.len()
        invariant
            nv == vals@.len(),
            env@.wf(),
            from + ps@.len() <= vals@.len(),
            vs == vals@.subrange(from as int, from + ps@.len()),
            forall|j: int| 0 <= j < vals@.len() ==> env@.valid(#[trigger] vals@[j]),
            i <= ps@.len(),
            first_bad(env@, ps@, vs, 0) == first_bad(env@, ps@, vs, i as int),
            frame_view(*frame) == base + zip(ps@, vs).take(i as int),
            frame_valid(env@, frame_view(*frame)),
        decreases ps@.len() - i,
    {
        assert(i < ps@.len());
        let p = ps.get(i);
        assert(ps@[i as int] == crate::small::typed_param_view(*p));
        let v = vals[from + i];
        assert(vs[i as int] == v);
        match check_type(env, &p.1, v) {
            Some(e) => {
                return Some(e);
            },
            None => {},
        }
        let ghost before = frame_view(*frame);
        frame.push((p.0.duplicate(), v));
        proof {
            assert(frame_view(*frame) =~= before.push((ps@[i as int].0, v)));
            assert(zip(ps@, vs).take(i + 1) =~= zip(ps@, vs).take(i as int).push((ps@[i as int].0, v)));
        }
        i = i + 1;
    }
    assert(zip(ps@, vs).take(ps@.len() as int) =~= zip(ps@, vs));
    None
}

/// Binds the arguments of a function call: see `bind_lambda`.
pub fn bind_lambda_exec(env: &mut Env, params: &LambdaArgs, vals: &Vec<ObjectReference>) -> (r: Result<Frame, RuntimeError>)
    requires
        old(env)@.wf(),
        vals@.len() >= params@.fixed(),
        forall|j: int| 0 <= j < vals@.len() ==> old(env)@.valid(#[trigger] vals@[j]),
    ensures
        (final(env)@, frame_res_view(r)) == bind_lambda(old(env)@, params@, vals@),
        final(env)@.wf(),
        old(env)@.grows_to(final(env)@),
        r matches Ok(f) ==> frame_valid(final(env)@, frame_view(f)),
{
    let ghost s = env@;
    let np = params.pre.len();
    let nq = params.post.len();
    let n = vals.len();
    let mut frame: Frame = Vec::new();
    assert(frame_view(frame) =~= Seq::<(Seq<char>, ObjectReference)>::empty());
    assert(vals@.subrange(0, np as int) =~= vals@.take(np as int));
    assert(vals@.subrange((n - nq) as int, n as int) =~= vals@.skip(n - nq));
    if let Some(e) = bind_typed(env, &params.pre, vals, 0, &mut frame) {
        return Err(e);
    }
    match &params.rest {
        None => {
            if let Some(e) = bind_typed(env, &params.post, vals, n - nq, &mut frame) {
                return Err(e);
            }
            assert(frame_view(frame) =~= zip(params@.pre, vals@.take(np as int)) + zip(params@.post, vals@.skip(n - nq)));
            Ok(frame)
        },
        Some(rp) => {
            let mut mid: Vec<ObjectReference> = Vec::new();
            let mut i = np;
            while i < n - nq
                invariant
                    env@ == s,
                    s == old(env)@,
                    np == params@.pre.len(),
                    nq == params@.post.len(),
                    params@.rest == Some(crate::small::typed_param_view(*rp)),
                    first_bad(s, params@.pre, vals@.take(np as int), 0) is None,
                    s.wf(),
                    np <= i <= n - nq,
                    n == vals@.len(),
                    forall|j: int| 0 <= j < vals@.len() ==> s.valid(#[trigger] vals@[j]),
                    mid@ == vals@.subrange(np as int, i as int),
                    first_bad_all(s, opt_type_view(rp.1), vals@.subrange(np as int, n - nq), 0)
                        == first_bad_all(s, opt_type_view(rp.1), vals@.subrange(np as int, n - nq), i - np),
                decreases n - nq - i,
            {
                assert(vals@.subrange(np as int, n - nq)[i - np] == vals@[i as int]);
                match check_type(env, &rp.1, vals[i]) {
                    Some(e) => {
                        return Err(e);
                    },
                    None => {},
                }
                mid.push(vals[i]);
                i = i + 1;
                assert(mid@ =~= vals@.subrange(np as int, i as int));
            }
            let rr = env.create_object(LispObject::Array(mid));
            let ghost before = frame_view(frame);
            frame.push((rp.0.duplicate(), rr));
            assert(frame_view(frame) =~= before.push((crate::small::typed_param_view(*rp).0, rr)));
            if let Some(e) = bind_typed(env, &params.post, vals, n - nq, &mut frame) {
                return Err(e);
            }
            assert(frame_view(frame) =~= zip(params@.pre, vals@.take(np as int)) + seq![(crate::small::typed_param_view(*rp).0, rr)] + zip(params@.post, vals@.skip(n - nq)));
            Ok(frame)
        },
    }
}

/// Binds the arguments of a macro call: see `bind_macro`.
pub fn bind_macro_exec(env: &mut Env, names: &MacroArgs, args: &Vec<ObjectReference>) -> (r: Frame)
    requires
        old(env)@.wf(),
        args@.len() >= names@.fixed(),
        forall|j: int| 0 <= j < args@.len() ==> old(env)@.valid(#[trigger] args@[j]),
    ensures
        (final(env)@, frame_view(r)) == bind_macro(old(env)@, names@, args@),
        final(env)@.wf(),
        old(env)@.grows_to(final(env)@),
        frame_valid(final(env)@, frame_view(r)),
{
    let np = names.pre.len();
    let nq = names.post.len();
    let n = args.len();
    let mut frame: Frame = Vec::new();
    let mut i: usize = 0;
    while i < np
        invariant
            env@.wf(),
            forall|j: int| 0 <= j < args@.len() ==> env@.valid(#[trigger] args@[j]),
            frame_valid(env@, frame_view(frame)),
            i <= np <= args@.len(),
            np == names@.pre.len(),
            frame_view(frame) == zip_names(names@.pre, args@.take(np as int)).take(i as int),
        decreases np - i,
    {
        let ghost before = frame_view(frame);
        assert(i < names@.pre.len());
        frame.push((names.pre.get(i).duplicate(), args[i]));
        assert(frame_view(frame) =~= before.push((names@.pre[i as int], args@[i as int])));
        assert(zip_names(names@.pre, args@.take(np as int)).take(i + 1) =~= zip_names(names@.pre, args@.take(np as int)).take(i as int).push((names@.pre[i as int], args@[i as int])));
        i = i + 1;
    }
    assert(zip_names(names@.pre, args@.take(np as int)).take(np as int) =~= zip_names(names@.pre, args@.take(np as int)));
    let ghost head = frame_view(frame);
    match &names.rest {
        Some(rn) => {
            let mut mid: Vec<ObjectReference> = Vec::new();
            let mut k = np;
            while k < n - nq
                invariant
                    np <= k <= n - nq,
                    n == args@.len(),
                    mid@ == args@.subrange(np as int, k as int),
                decreases n - nq - k,
            {
                mid.push(args[k]);
                k = k + 1;
                assert(mid@ =~= args@.subrange(np as int, k as int));
            }
            proof {
                assert forall|j: int| 0 <= j < mid@.len() implies env@.valid(#[trigger] mid@[j]) by {
                    assert(mid@[j] == args@[np + j]);
                }
            }
            let rr = env.create_object(LispObject::Array(mid));
            let ghost before = frame_view(frame);
            frame.push((rn.duplicate(), rr));
            assert(frame_view(frame) =~= before.push((rn@, rr)));
        },
        None => {},
    }
    let ghost middle = frame_view(frame);
    let mut j: usize = 0;
    while j < nq
        invariant
            env@.wf(),
            forall|j: int| 0 <= j < args@.len() ==> env@.valid(#[trigger] args@[j]),
            frame_valid(env@, frame_view(frame)),
            j <= nq,
            nq == names@.post.len(),
            n == args@.len(),
            n >= np + nq,
            frame_view(frame) == middle + zip_names(names@.post, args@.skip(n - nq)).take(j as int),
        decreases nq - j,
    {
        let ghost before = frame_view(frame);
        assert(j < names@.post.len());
        frame.push((names.post.get(j).duplicate(), args[n - nq + j]));
        assert(frame_view(frame) =~= before.push((names@.post[j as int], args@[n - nq + j])));
        assert(zip_names(names@.post, args@.skip(n - nq)).take(j + 1) =~= zip_names(names@.post, args@.skip(n - nq)).take(j as int).push((names@.post[j as int], args@[n - nq + j])));
        j = j + 1;
    }
    assert(zip_names(names@.post, args@.skip(n - nq)).take(nq as int) =~= zip_names(names@.post, args@.skip(n - nq)));
    frame
}

/// A builtin of two evaluated arguments: see `dyadic_spec`.
pub fn dyadic_exec<F: FloatOps>(env: &mut Env, f: Dyadic, l: LispObject, r: LispObject, floats: &F) -> (res: Result<ObjectReference, RuntimeError>)
    requires
        old(env)@.wf(),
        crate::object::refs_below(l@, old(env)@.objects.len()),
        crate::object::refs_below(r@, old(env)@.objects.len()),
    ensures
        final(env)@.wf(),
        old(env)@.grows_to(final(env)@),
        answers_agree(*floats, old(env)@, final(env)@),
        res matches Ok(x) ==> final(env)@.valid(x),
        forall|lq: Seq<FloatAnswer>| extends(lq, final(env)@.floats) ==> #[trigger] dyadic_spec(old(env)@, f, l@, r@, lq) == (final(env)@, res_view(res)),
{
    match f {
        Dyadic::Assign => builtins::set(env, l, r),
        Dyadic::Declare => builtins::declare(env, l, r),
        Dyadic::Add => builtins::add(env, l, r, floats),
        Dyadic::Mul => builtins::mul(env, l, r, floats),
        Dyadic::Sub => builtins::sub(env, l, r, floats),
        Dyadic::Div => builtins::div(env, l, r, floats),
        Dyadic::Mod => builtins::modulo(env, l, r),
        Dyadic::Eq => builtins::eq(env, l, r, floats),
        Dyadic::Lt => builtins::lt(env, l, r, floats),
        Dyadic::Gt => builtins::gt(env, l, r, floats),
        Dyadic::Le => builtins::le(env, l, r, floats),
        Dyadic::Ge => builtins::ge(env, l, r, floats),
    }
}

} // verus!
