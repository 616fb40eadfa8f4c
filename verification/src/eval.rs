//! Evaluation: each function here does what the spec function of the same
//! name in `semantics` states, for every way in which the answers of float
//! operations may go on.
use vstd::prelude::*;

use crate::calls::{bind_lambda_exec, bind_macro_exec, check_type, dyadic_exec, frame_valid, list_items_exec};
use crate::error::{ErrV, RuntimeError};
use crate::float::FloatOps;
use crate::forms::{make_defun, make_lambda, make_macro};
use crate::object::{
    answers_agree, lemma_agree_trans,
    cut, extends, frame_lookup, frame_view, lemma_extends_from, lemma_grows_trans, lemma_obj_refs,
    lemma_refs_below_mono, refs_below, refs_view, res_view, Env, EnvV, FloatAnswer, LispObject,
    Monadic, ObjV, ObjectReference, VarargMacro,
};
use crate::semantics::{
    apply_spec, call_dyadic_spec, call_lambda_spec, call_macro_spec, call_monadic_spec,
    eval_args_spec, eval_body_spec, eval_elems_spec, eval_inner_spec, eval_top_spec,
    dyadic_spec, expand_elems_spec, expand_once_spec, expand_spec, with_bindings, EVAL_DEPTH, RECURSION_LIMIT,
    WALK_LIMIT,
};
use crate::tree::{opt_type_view, LambdaArgs, LispType, MacroArgs};

verus! {

/// Whether two lists of references are the same.
fn same_refs(a: &Vec<ObjectReference>, b: &Vec<ObjectReference>) -> (r: bool)
    ensures
        r == (a@ == b@),
{
    if a.len() != b.len() {
        return false;
    }
    let mut i: usize = 0;
    while i < a.len()
        invariant
            i <= a@.len() == b@.len(),
            forall|j: int| 0 <= j < i ==> a@[j] == b@[j],
        decreases a@.len() - i,
    {
        if a[i] != b[i] {
            return false;
        }
        i = i + 1;
    }
    assert(a@ =~= b@);
    true
}

fn eval_top_at<F: FloatOps>(env: &mut Env, e: ObjectReference, d: u64, floats: &F) -> (res: Result<ObjectReference, RuntimeError>)
    requires
        old(env)@.wf(),
        old(env)@.valid(e),
    ensures
        final(env)@.wf(),
        old(env)@.grows_to(final(env)@),
        answers_agree(*floats, old(env)@, final(env)@),
        res matches Ok(x) ==> final(env)@.valid(x),
        forall|lq: Seq<FloatAnswer>| extends(lq, final(env)@.floats) ==> #[trigger] eval_top_spec(old(env)@, e, d as nat, lq) == (final(env)@, res_view(res)),
    decreases d,
{
    reveal(eval_top_spec);
    reveal(expand_once_spec);
    reveal(eval_inner_spec);
    if d == 0 {
        return Err(RuntimeError::StackOverflow);
    }
    proof {
        lemma_obj_refs(env@, e);
    }
    let inner = match env.get(e) {
        LispObject::Quasiquote(i) => Some((*i, true)),
        LispObject::Quote(i) => Some((*i, false)),
        _ => None,
    };
    let ghost s = env@;
    match inner {
        Some((i, true)) => {
            let r = expand_once_at(env, i, d - 1, floats);
            proof {
                assert(s.obj(e) == ObjV::Quasiquote(i));
                assert forall|lq: Seq<FloatAnswer>| extends(lq, env@.floats) implies #[trigger] eval_top_spec(s, e, d as nat, lq) == (env@, res_view(r)) by {
                    assert(eval_top_spec(s, e, d as nat, lq) == expand_once_spec(s, i, (d - 1) as nat, lq));
                    assert(expand_once_spec(s, i, (d - 1) as nat, lq) == (env@, res_view(r)));
                }
            }
            r
        },
        Some((i, false)) => {
            proof {
                assert(s.obj(e) == ObjV::Quote(i));
                assert(s == old(env)@);
                assert forall|lq: Seq<FloatAnswer>| extends(lq, env@.floats) implies #[trigger] eval_top_spec(s, e, d as nat, lq) == (env@, res_view(Ok::<ObjectReference, RuntimeError>(i))) by {
                }
            }
            Ok(i)
        },
        None => {
            let r = eval_inner_at(env, e, d - 1, floats);
            proof {
                assert(!(s.obj(e) is Quote) && !(s.obj(e) is Quasiquote));
                assert forall|lq: Seq<FloatAnswer>| extends(lq, env@.floats) implies #[trigger] eval_top_spec(s, e, d as nat, lq) == (env@, res_view(r)) by {
                    assert(eval_top_spec(s, e, d as nat, lq) == eval_inner_spec(s, e, (d - 1) as nat, lq));
                }
            }
            r
        },
    }
}

fn eval_inner_at<F: FloatOps>(env: &mut Env, e: ObjectReference, d: u64, floats: &F) -> (res: Result<ObjectReference, RuntimeError>)
    requires
        old(env)@.wf(),
        old(env)@.valid(e),
    ensures
        final(env)@.wf(),
        old(env)@.grows_to(final(env)@),
        answers_agree(*floats, old(env)@, final(env)@),
        res matches Ok(x) ==> final(env)@.valid(x),
        forall|lq: Seq<FloatAnswer>| extends(lq, final(env)@.floats) ==> #[trigger] eval_inner_spec(old(env)@, e, d as nat, lq) == (final(env)@, res_view(res)),
    decreases d,
{
    reveal(eval_inner_spec);
    reveal(apply_spec);
    reveal(expand_once_spec);
    reveal(eval_elems_spec);
    if d == 0 {
        return Err(RuntimeError::StackOverflow);
    }
    let ghost s = env@;
    proof {
        lemma_obj_refs(s, e);
    }
    let o = env.get(e).duplicate();
    match o {
        LispObject::Pair(f, x) => {
            proof {
                assert(s.obj(e) == ObjV::Pair(f, x));
            }
            let rf = eval_inner_at(env, f, d - 1, floats);
            let ghost s1 = env@;
            match rf {
                Err(er) => {
                    proof {
                        assert forall|lq: Seq<FloatAnswer>| extends(lq, env@.floats) implies #[trigger] eval_inner_spec(s, e, d as nat, lq) == (env@, res_view(Err::<ObjectReference, RuntimeError>(er))) by {
                            assert(eval_inner_spec(s, f, (d - 1) as nat, lq) == (s1, Err::<ObjectReference, ErrV>(er@)));
                        }
                    }
                    Err(er)
                },
                Ok(fr) => {
                    proof {
                        lemma_obj_refs(s1, fr);
                    }
                    let fv = env.get(fr).duplicate();
                    let r = apply_at(env, fv, x, e, d - 1, floats);
                    proof {
                        lemma_grows_trans(s, s1, env@);
                        lemma_agree_trans(*floats, s, s1, env@);
                        assert forall|lq: Seq<FloatAnswer>| extends(lq, env@.floats) implies #[trigger] eval_inner_spec(s, e, d as nat, lq) == (env@, res_view(r)) by {
                            lemma_extends_from(lq, s1, env@);
                            assert(eval_inner_spec(s, f, (d - 1) as nat, lq) == (s1, Ok::<ObjectReference, ErrV>(fr)));
                            assert(apply_spec(s1, s1.obj(fr), x, e, (d - 1) as nat, lq) == (env@, res_view(r)));
                        }
                    }
                    r
                },
            }
        },
        LispObject::Atom(n) => {
            let ghost nv = n@;
            let r = match env.get_local(&n) {
                Some(v) => Ok(v),
                None => Err(RuntimeError::UndefinedVariable(n)),
            };
            proof {
                assert(s.obj(e) == ObjV::Atom(nv));
                assert(env@ == s);
                assert(d > 0);
                assert forall|lq: Seq<FloatAnswer>| extends(lq, env@.floats) implies #[trigger] eval_inner_spec(s, e, d as nat, lq) == (env@, res_view(r)) by {
                    assert(eval_inner_spec(s, e, d as nat, lq) == match frame_lookup(s.top(), nv) {
                        Some(v) => (s, Ok::<ObjectReference, ErrV>(v)),
                        None => (s, Err(ErrV::UndefinedVariable(nv))),
                    });
                }
            }
            r
        },
        LispObject::Quasiquote(i) => {
            proof {
                assert(s.obj(e) == ObjV::Quasiquote(i));
            }
            let r = expand_once_at(env, i, d - 1, floats);
            proof {
                assert forall|lq: Seq<FloatAnswer>| extends(lq, env@.floats) implies #[trigger] eval_inner_spec(s, e, d as nat, lq) == (env@, res_view(r)) by {
                    assert(expand_once_spec(s, i, (d - 1) as nat, lq) == (env@, res_view(r)));
                }
            }
            r
        },
        LispObject::Array(xs) => {
            proof {
                assert(s.obj(e) == ObjV::Array(xs@));
            }
            let ra = eval_elems_at(env, &xs, d - 1, floats);
            let ghost s1 = env@;
            let r = match ra {
                Err(er) => Err(er),
                Ok(ys) => Ok(env.create_object(LispObject::Array(ys))),
            };
            proof {
                assert forall|lq: Seq<FloatAnswer>| extends(lq, env@.floats) implies #[trigger] eval_inner_spec(s, e, d as nat, lq) == (env@, res_view(r)) by {
                    lemma_extends_from(lq, s1, env@);
                    assert(eval_elems_spec(s, xs@, 0, Seq::empty(), (d - 1) as nat, lq) == (s1, refs_view(ra)));
                }
            }
            r
        },
        LispObject::Unquote(_) => {
            proof {
                assert(s.obj(e) is Unquote);
                assert forall|lq: Seq<FloatAnswer>| extends(lq, env@.floats) implies #[trigger] eval_inner_spec(s, e, d as nat, lq) == (env@, res_view(Err::<ObjectReference, RuntimeError>(RuntimeError::UnquoteOutsideQuasiquote))) by {
                }
            }
            Err(RuntimeError::UnquoteOutsideQuasiquote)
        },
        _ => {
            proof {
                assert(!(s.obj(e) is Pair) && !(s.obj(e) is Atom) && !(s.obj(e) is Quasiquote) && !(s.obj(e) is Array) && !(s.obj(e) is Unquote));
                assert forall|lq: Seq<FloatAnswer>| extends(lq, env@.floats) implies #[trigger] eval_inner_spec(s, e, d as nat, lq) == (env@, res_view(Ok::<ObjectReference, RuntimeError>(e))) by {
                }
            }
            Ok(e)
        },
    }
}

fn apply_at<F: FloatOps>(env: &mut Env, fv: LispObject, x: ObjectReference, e: ObjectReference, d: u64, floats: &F) -> (res: Result<ObjectReference, RuntimeError>)
    requires
        old(env)@.wf(),
        refs_below(fv@, old(env)@.objects.len()),
        old(env)@.valid(x),
        old(env)@.valid(e),
    ensures
        final(env)@.wf(),
        old(env)@.grows_to(final(env)@),
        answers_agree(*floats, old(env)@, final(env)@),
        res matches Ok(x) ==> final(env)@.valid(x),
        forall|lq: Seq<FloatAnswer>| extends(lq, final(env)@.floats) ==> #[trigger] apply_spec(old(env)@, fv@, x, e, d as nat, lq) == (final(env)@, res_view(res)),
    decreases d,
{
    reveal(apply_spec);
    reveal(eval_args_spec);
    reveal(call_lambda_spec);
    reveal(call_macro_spec);
    reveal(call_dyadic_spec);
    reveal(call_monadic_spec);
    if d == 0 {
        return Err(RuntimeError::StackOverflow);
    }
    let ghost s = env@;
    let ghost fvv = fv@;
    match fv {
        LispObject::Lambda { params, ret_ty, body } => {
            proof {
                assert(fvv == ObjV::Lambda { params: params@, ret_ty: opt_type_view(ret_ty), body: body@ });
            }
            if env.depth() > RECURSION_LIMIT {
                return Err(RuntimeError::StackOverflow);
            }
            let ra = eval_args_at(env, x, d - 1, floats);
            let ghost s1 = env@;
            match ra {
                Err(er) => {
                    proof {
                        assert forall|lq: Seq<FloatAnswer>| extends(lq, env@.floats) implies #[trigger] apply_spec(s, fvv, x, e, d as nat, lq) == (env@, res_view(Err::<ObjectReference, RuntimeError>(er))) by {
                            assert(eval_args_spec(s, x, Seq::empty(), (d - 1) as nat, WALK_LIMIT as int, lq) == (s1, Err::<Seq<ObjectReference>, ErrV>(er@)));
                        }
                    }
                    Err(er)
                },
                Ok(vals) => {
                    proof {
                        assert(refs_below(fvv, s.objects.len()));
                        assert forall|j: int| 0 <= j < body@.len() implies s1.valid(#[trigger] body@[j]) by {
                            assert(fvv->body[j] == body@[j]);
                        }
                    }
                    let r = call_lambda_at(env, &params, &ret_ty, &body, &vals, e, d - 1, floats);
                    proof {
                        lemma_grows_trans(s, s1, env@);
                        lemma_agree_trans(*floats, s, s1, env@);
                        assert forall|lq: Seq<FloatAnswer>| extends(lq, env@.floats) implies #[trigger] apply_spec(s, fvv, x, e, d as nat, lq) == (env@, res_view(r)) by {
                            lemma_extends_from(lq, s1, env@);
                            assert(eval_args_spec(s, x, Seq::empty(), (d - 1) as nat, WALK_LIMIT as int, lq) == (s1, Ok::<Seq<ObjectReference>, ErrV>(vals@)));
                            assert(call_lambda_spec(s1, params@, opt_type_view(ret_ty), body@, vals@, e, (d - 1) as nat, lq) == (env@, res_view(r)));
                        }
                    }
                    r
                },
            }
        },
        LispObject::Macro { params, body } => {
            proof {
                assert(fvv == ObjV::Macro { names: params@, code: body@ });
                assert(refs_below(fvv, s.objects.len()));
                assert forall|j: int| 0 <= j < body@.len() implies s.valid(#[trigger] body@[j]) by {
                    assert(fvv->code[j] == body@[j]);
                }
            }
            let r = call_macro_at(env, &params, &body, x, e, d - 1, floats);
            proof {
                assert forall|lq: Seq<FloatAnswer>| extends(lq, env@.floats) implies #[trigger] apply_spec(s, fvv, x, e, d as nat, lq) == (env@, res_view(r)) by {
                    assert(call_macro_spec(s, params@, body@, x, e, (d - 1) as nat, lq) == (env@, res_view(r)));
                }
            }
            r
        },
        LispObject::BuiltinDyadic(f) => {
            proof {
                assert(fvv == ObjV::Dyadic(f));
            }
            let r = call_dyadic_at(env, f, x, d - 1, floats);
            proof {
                assert forall|lq: Seq<FloatAnswer>| extends(lq, env@.floats) implies #[trigger] apply_spec(s, fvv, x, e, d as nat, lq) == (env@, res_view(r)) by {
                    assert(call_dyadic_spec(s, f, x, (d - 1) as nat, lq) == (env@, res_view(r)));
                }
            }
            r
        },
        LispObject::BuiltinMonadic(f) => {
            proof {
                assert(fvv == ObjV::Monadic(f));
            }
            let r = call_monadic_at(env, f, x, d - 1, floats);
            proof {
                assert forall|lq: Seq<FloatAnswer>| extends(lq, env@.floats) implies #[trigger] apply_spec(s, fvv, x, e, d as nat, lq) == (env@, res_view(r)) by {
                    assert(call_monadic_spec(s, f, x, (d - 1) as nat, lq) == (env@, res_view(r)));
                }
            }
            r
        },
        LispObject::BuiltinVarargMacro(f) => {
            proof {
                assert(fvv == ObjV::Vararg(f));
            }
            let r = match list_items_exec(env, x) {
                None => Err(RuntimeError::StackOverflow),
                Some(args) => match f {
                    VarargMacro::Lambda => make_lambda(env, &args),
                    VarargMacro::Macro => make_macro(env, &args),
                    VarargMacro::Defun => make_defun(env, &args),
                },
            };
            proof {
                assert forall|lq: Seq<FloatAnswer>| extends(lq, env@.floats) implies #[trigger] apply_spec(s, fvv, x, e, d as nat, lq) == (env@, res_view(r)) by {
                }
            }
            r
        },
        _ => {
            proof {
                assert(!(fvv is Lambda) && !(fvv is Macro) && !(fvv is Dyadic) && !(fvv is Monadic) && !(fvv is Vararg));
            }
            let r = Err(RuntimeError::TypeError { expected: Some(LispType::Function), actual: None });
            proof {
                assert forall|lq: Seq<FloatAnswer>| extends(lq, env@.floats) implies #[trigger] apply_spec(s, fvv, x, e, d as nat, lq) == (env@, res_view(r)) by {
                }
            }
            r
        },
    }
}

fn eval_args_at<F: FloatOps>(env: &mut Env, x: ObjectReference, d: u64, floats: &F) -> (res: Result<Vec<ObjectReference>, RuntimeError>)
    requires
        old(env)@.wf(),
        old(env)@.valid(x),
    ensures
        final(env)@.wf(),
        old(env)@.grows_to(final(env)@),
        answers_agree(*floats, old(env)@, final(env)@),
        res matches Ok(v) ==> forall|j: int| 0 <= j < v@.len() ==> final(env)@.valid(#[trigger] v@[j]),
        forall|lq: Seq<FloatAnswer>| extends(lq, final(env)@.floats) ==> #[trigger] eval_args_spec(old(env)@, x, Seq::empty(), d as nat, WALK_LIMIT as int, lq) == (final(env)@, refs_view(res)),
    decreases d,
{
    reveal(eval_args_spec);
    reveal(eval_top_spec);
    let ghost s0 = env@;
    let mut acc: Vec<ObjectReference> = Vec::new();
    let mut cur = x;
    let mut k: u64 = WALK_LIMIT;
    loop
        invariant
            s0 == old(env)@,
            env@.wf(),
            s0.grows_to(env@),
            answers_agree(*floats, s0, env@),
            env@.valid(cur),
            forall|j: int| 0 <= j < acc@.len() ==> env@.valid(#[trigger] acc@[j]),
            forall|lq: Seq<FloatAnswer>| extends(lq, env@.floats) ==> #[trigger] eval_args_spec(s0, x, Seq::empty(), d as nat, WALK_LIMIT as int, lq) == eval_args_spec(env@, cur, acc@, d as nat, k as int, lq),
        decreases k,
    {
        reveal(eval_args_spec);
        reveal(eval_top_spec);
        if k == 0 {
            return Err(RuntimeError::StackOverflow);
        }
        proof {
            lemma_obj_refs(env@, cur);
        }
        let (a, n) = match env.get(cur) {
            LispObject::Pair(a, n) => (*a, *n),
            _ => {
                return Ok(acc);
            },
        };
        if d == 0 {
            return Err(RuntimeError::StackOverflow);
        }
        let ghost si = env@;
        let ghost ci = cur;
        let ghost ai = acc@;
        let r = eval_top_at(env, a, d - 1, floats);
        proof {
            lemma_grows_trans(s0, si, env@);
            lemma_agree_trans(*floats, s0, si, env@);
        }
        match r {
            Err(er) => {
                proof {
                    assert forall|lq: Seq<FloatAnswer>| extends(lq, env@.floats) implies #[trigger] eval_args_spec(s0, x, Seq::empty(), d as nat, WALK_LIMIT as int, lq) == (env@, refs_view(Err::<Vec<ObjectReference>, RuntimeError>(er))) by {
                        lemma_extends_from(lq, si, env@);
                        assert(eval_top_spec(si, a, (d - 1) as nat, lq) == (env@, res_view(Err::<ObjectReference, RuntimeError>(er))));
                        assert(eval_args_spec(si, ci, ai, d as nat, k as int, lq) == (env@, Err::<Seq<ObjectReference>, ErrV>(er@)));
                    }
                }
                return Err(er);
            },
            Ok(v) => {
                acc.push(v);
                proof {
                    assert forall|lq: Seq<FloatAnswer>| extends(lq, env@.floats) implies #[trigger] eval_args_spec(s0, x, Seq::empty(), d as nat, WALK_LIMIT as int, lq) == eval_args_spec(env@, n, acc@, d as nat, k - 1, lq) by {
                        lemma_extends_from(lq, si, env@);
                        assert(eval_top_spec(si, a, (d - 1) as nat, lq) == (env@, res_view(Ok::<ObjectReference, RuntimeError>(v))));
                        assert(eval_args_spec(si, ci, ai, d as nat, k as int, lq) == eval_args_spec(env@, n, acc@, d as nat, k - 1, lq));
                    }
                }
                cur = n;
            },
        }
        k = k - 1;
    }
}

fn eval_elems_at<F: FloatOps>(env: &mut Env, xs: &Vec<ObjectReference>, d: u64, floats: &F) -> (res: Result<Vec<ObjectReference>, RuntimeError>)
    requires
        old(env)@.wf(),
        forall|j: int| 0 <= j < xs@.len() ==> old(env)@.valid(#[trigger] xs@[j]),
    ensures
        final(env)@.wf(),
        old(env)@.grows_to(final(env)@),
        answers_agree(*floats, old(env)@, final(env)@),
        res matches Ok(v) ==> forall|j: int| 0 <= j < v@.len() ==> final(env)@.valid(#[trigger] v@[j]),
        forall|lq: Seq<FloatAnswer>| extends(lq, final(env)@.floats) ==> #[trigger] eval_elems_spec(old(env)@, xs@, 0, Seq::empty(), d as nat, lq) == (final(env)@, refs_view(res)),
    decreases d,
{
    reveal(eval_elems_spec);
    reveal(eval_inner_spec);
    let ghost s0 = env@;
    let mut acc: Vec<ObjectReference> = Vec::new();
    let mut i: usize = 0;
    while i < xs.len()
        invariant
            s0 == old(env)@,
            i <= xs@.len(),
            env@.wf(),
            s0.grows_to(env@),
            answers_agree(*floats, s0, env@),
            forall|j: int| 0 <= j < xs@.len() ==> s0.valid(#[trigger] xs@[j]),
            forall|j: int| 0 <= j < acc@.len() ==> env@.valid(#[trigger] acc@[j]),
            forall|lq: Seq<FloatAnswer>| extends(lq, env@.floats) ==> #[trigger] eval_elems_spec(s0, xs@, 0, Seq::empty(), d as nat, lq) == eval_elems_spec(env@, xs@, i as int, acc@, d as nat, lq),
        decreases xs@.len() - i,
    {
        reveal(eval_elems_spec);
        reveal(eval_inner_spec);
        if d == 0 {
            return Err(RuntimeError::StackOverflow);
        }
        let ghost si = env@;
        let ghost ai = acc@;
        let r = eval_inner_at(env, xs[i], d - 1, floats);
        proof {
            lemma_grows_trans(s0, si, env@);
            lemma_agree_trans(*floats, s0, si, env@);
        }
        match r {
            Err(er) => {
                proof {
                    assert forall|lq: Seq<FloatAnswer>| extends(lq, env@.floats) implies #[trigger] eval_elems_spec(s0, xs@, 0, Seq::empty(), d as nat, lq) == (env@, refs_view(Err::<Vec<ObjectReference>, RuntimeError>(er))) by {
                        lemma_extends_from(lq, si, env@);
                        assert(eval_inner_spec(si, xs@[i as int], (d - 1) as nat, lq) == (env@, res_view(Err::<ObjectReference, RuntimeError>(er))));
                        assert(i < xs@.len() && d != 0);
                        assert(eval_elems_spec(si, xs@, i as int, ai, d as nat, lq) == (env@, Err::<Seq<ObjectReference>, ErrV>(er@)));
                    }
                }
                return Err(er);
            },
            Ok(v) => {
                acc.push(v);
                proof {
                    assert forall|lq: Seq<FloatAnswer>| extends(lq, env@.floats) implies #[trigger] eval_elems_spec(s0, xs@, 0, Seq::empty(), d as nat, lq) == eval_elems_spec(env@, xs@, i + 1, acc@, d as nat, lq) by {
                        lemma_extends_from(lq, si, env@);
                        assert(eval_inner_spec(si, xs@[i as int], (d - 1) as nat, lq) == (env@, res_view(Ok::<ObjectReference, RuntimeError>(v))));
                        assert(eval_elems_spec(si, xs@, i as int, ai, d as nat, lq) == eval_elems_spec(env@, xs@, i + 1, acc@, d as nat, lq));
                    }
                }
            },
        }
        i = i + 1;
    }
    Ok(acc)
}

fn eval_body_at<F: FloatOps>(env: &mut Env, body: &Vec<ObjectReference>, e: ObjectReference, d: u64, floats: &F) -> (res: Result<ObjectReference, RuntimeError>)
    requires
        old(env)@.wf(),
        old(env)@.valid(e),
        forall|j: int| 0 <= j < body@.len() ==> old(env)@.valid(#[trigger] body@[j]),
    ensures
        final(env)@.wf(),
        old(env)@.grows_to(final(env)@),
        answers_agree(*floats, old(env)@, final(env)@),
        res matches Ok(x) ==> final(env)@.valid(x),
        forall|lq: Seq<FloatAnswer>| extends(lq, final(env)@.floats) ==> #[trigger] eval_body_spec(old(env)@, body@, 0, Ok(e), d as nat, lq) == (final(env)@, res_view(res)),
    decreases d,
{
    reveal(eval_body_spec);
    reveal(eval_top_spec);
    let ghost s0 = env@;
    let mut last: Result<ObjectReference, RuntimeError> = Ok(e);
    let mut i: usize = 0;
    while i < body.len()
        invariant
            s0 == old(env)@,
            i <= body@.len(),
            env@.wf(),
            s0.grows_to(env@),
            answers_agree(*floats, s0, env@),
            forall|j: int| 0 <= j < body@.len() ==> s0.valid(#[trigger] body@[j]),
            last matches Ok(x) ==> env@.valid(x),
            forall|lq: Seq<FloatAnswer>| extends(lq, env@.floats) ==> #[trigger] eval_body_spec(s0, body@, 0, Ok(e), d as nat, lq) == eval_body_spec(env@, body@, i as int, res_view(last), d as nat, lq),
        decreases body@.len() - i,
    {
        reveal(eval_body_spec);
        reveal(eval_top_spec);
        if d == 0 {
            return Err(RuntimeError::StackOverflow);
        }
        let ghost si = env@;
        let ghost li = res_view(last);
        let r = eval_top_at(env, body[i], d - 1, floats);
        proof {
            lemma_grows_trans(s0, si, env@);
            lemma_agree_trans(*floats, s0, si, env@);
        }
        proof {
            assert forall|lq: Seq<FloatAnswer>| extends(lq, env@.floats) implies #[trigger] eval_body_spec(s0, body@, 0, Ok(e), d as nat, lq) == eval_body_spec(env@, body@, i + 1, res_view(r), d as nat, lq) by {
                lemma_extends_from(lq, si, env@);
                assert(eval_top_spec(si, body@[i as int], (d - 1) as nat, lq) == (env@, res_view(r)));
                assert(eval_body_spec(si, body@, i as int, li, d as nat, lq) == eval_body_spec(env@, body@, i + 1, res_view(r), d as nat, lq));
            }
        }
        last = r;
        i = i + 1;
    }
    last
}

fn call_lambda_at<F: FloatOps>(
    env: &mut Env,
    params: &LambdaArgs,
    ret_ty: &Option<LispType>,
    body: &Vec<ObjectReference>,
    vals: &Vec<ObjectReference>,
    e: ObjectReference,
    d: u64,
    floats: &F,
) -> (res: Result<ObjectReference, RuntimeError>)
    requires
        old(env)@.wf(),
        old(env)@.valid(e),
        forall|j: int| 0 <= j < body@.len() ==> old(env)@.valid(#[trigger] body@[j]),
        forall|j: int| 0 <= j < vals@.len() ==> old(env)@.valid(#[trigger] vals@[j]),
    ensures
        final(env)@.wf(),
        old(env)@.grows_to(final(env)@),
        answers_agree(*floats, old(env)@, final(env)@),
        res matches Ok(x) ==> final(env)@.valid(x),
        forall|lq: Seq<FloatAnswer>| extends(lq, final(env)@.floats) ==> #[trigger] call_lambda_spec(old(env)@, params@, opt_type_view(*ret_ty), body@, vals@, e, d as nat, lq) == (final(env)@, res_view(res)),
    decreases d,
{
    reveal(call_lambda_spec);
    reveal(eval_body_spec);
    if d == 0 {
        return Err(RuntimeError::StackOverflow);
    }
    let n = vals.len();
    let np = params.pre.len();
    let nq = params.post.len();
    if n < np || n - np < nq {
        return Err(RuntimeError::NoCurrying);
    }
    if n - np != nq && params.rest.is_none() {
        return Err(RuntimeError::TooManyArguments);
    }
    let ghost s = env@;
    let frame = match bind_lambda_exec(env, params, vals) {
        Ok(f) => f,
        Err(er) => {
            return Err(er);
        },
    };
    let ghost s1 = env@;
    env.push_frame(frame);
    let ghost s2 = env@;
    let rb = eval_body_at(env, body, e, d - 1, floats);
    let ghost s3 = env@;
    proof {
        lemma_grows_trans(s, s1, s2);
        lemma_agree_trans(*floats, s, s1, s2);
        lemma_grows_trans(s, s2, s3);
        lemma_agree_trans(*floats, s, s2, s3);
    }
    match rb {
        Err(er) => {
            proof {
                assert forall|lq: Seq<FloatAnswer>| extends(lq, env@.floats) implies #[trigger] call_lambda_spec(s, params@, opt_type_view(*ret_ty), body@, vals@, e, d as nat, lq) == (env@, res_view(Err::<ObjectReference, RuntimeError>(er))) by {
                    assert(eval_body_spec(s2, body@, 0, Ok(e), (d - 1) as nat, lq) == (s3, Err::<ObjectReference, ErrV>(er@)));
                }
            }
            Err(er)
        },
        Ok(res) => {
            match check_type(env, ret_ty, res) {
                Some(er) => {
                    proof {
                        assert forall|lq: Seq<FloatAnswer>| extends(lq, env@.floats) implies #[trigger] call_lambda_spec(s, params@, opt_type_view(*ret_ty), body@, vals@, e, d as nat, lq) == (env@, res_view(Err::<ObjectReference, RuntimeError>(er))) by {
                            assert(eval_body_spec(s2, body@, 0, Ok(e), (d - 1) as nat, lq) == (s3, Ok::<ObjectReference, ErrV>(res)));
                        }
                    }
                    Err(er)
                },
                None => {
                    env.pop_frame();
                    proof {
                        assert forall|lq: Seq<FloatAnswer>| extends(lq, env@.floats) implies #[trigger] call_lambda_spec(s, params@, opt_type_view(*ret_ty), body@, vals@, e, d as nat, lq) == (env@, res_view(Ok::<ObjectReference, RuntimeError>(res))) by {
                            assert(eval_body_spec(s2, body@, 0, Ok(e), (d - 1) as nat, lq) == (s3, Ok::<ObjectReference, ErrV>(res)));
                        }
                    }
                    Ok(res)
                },
            }
        },
    }
}

fn call_macro_at<F: FloatOps>(
    env: &mut Env,
    names: &MacroArgs,
    code: &Vec<ObjectReference>,
    x: ObjectReference,
    e: ObjectReference,
    d: u64,
    floats: &F,
) -> (res: Result<ObjectReference, RuntimeError>)
    requires
        old(env)@.wf(),
        old(env)@.valid(x),
        old(env)@.valid(e),
        forall|j: int| 0 <= j < code@.len() ==> old(env)@.valid(#[trigger] code@[j]),
    ensures
        final(env)@.wf(),
        old(env)@.grows_to(final(env)@),
        answers_agree(*floats, old(env)@, final(env)@),
        res matches Ok(x) ==> final(env)@.valid(x),
        forall|lq: Seq<FloatAnswer>| extends(lq, final(env)@.floats) ==> #[trigger] call_macro_spec(old(env)@, names@, code@, x, e, d as nat, lq) == (final(env)@, res_view(res)),
    decreases d,
{
    reveal(call_macro_spec);
    reveal(expand_spec);
    reveal(eval_body_spec);
    if d == 0 {
        return Err(RuntimeError::StackOverflow);
    }
    let ghost s = env@;
    let ra = expand_at(env, names, x, code, d - 1, floats);
    let ghost s1 = env@;
    let exps = match ra {
        Ok(v) => v,
        Err(er) => {
            proof {
                assert forall|lq: Seq<FloatAnswer>| extends(lq, env@.floats) implies #[trigger] call_macro_spec(s, names@, code@, x, e, d as nat, lq) == (env@, res_view(Err::<ObjectReference, RuntimeError>(er))) by {
                    assert(expand_spec(s, names@, x, code@, (d - 1) as nat, lq) == (s1, Err::<Seq<ObjectReference>, ErrV>(er@)));
                }
            }
            return Err(er);
        },
    };
    let r = eval_body_at(env, &exps, e, d - 1, floats);
    proof {
        lemma_grows_trans(s, s1, env@);
        lemma_agree_trans(*floats, s, s1, env@);
        assert forall|lq: Seq<FloatAnswer>| extends(lq, env@.floats) implies #[trigger] call_macro_spec(s, names@, code@, x, e, d as nat, lq) == (env@, res_view(r)) by {
            lemma_extends_from(lq, s1, env@);
            assert(expand_spec(s, names@, x, code@, (d - 1) as nat, lq) == (s1, Ok::<Seq<ObjectReference>, ErrV>(exps@)));
            assert(eval_body_spec(s1, exps@, 0, Ok(e), (d - 1) as nat, lq) == (env@, res_view(r)));
        }
    }
    r
}

fn expand_at<F: FloatOps>(
    env: &mut Env,
    names: &MacroArgs,
    first: ObjectReference,
    code: &Vec<ObjectReference>,
    d: u64,
    floats: &F,
) -> (res: Result<Vec<ObjectReference>, RuntimeError>)
    requires
        old(env)@.wf(),
        old(env)@.valid(first),
        forall|j: int| 0 <= j < code@.len() ==> old(env)@.valid(#[trigger] code@[j]),
    ensures
        final(env)@.wf(),
        old(env)@.grows_to(final(env)@),
        answers_agree(*floats, old(env)@, final(env)@),
        res matches Ok(v) ==> forall|j: int| 0 <= j < v@.len() ==> final(env)@.valid(#[trigger] v@[j]),
        forall|lq: Seq<FloatAnswer>| extends(lq, final(env)@.floats) ==> #[trigger] expand_spec(old(env)@, names@, first, code@, d as nat, lq) == (final(env)@, refs_view(res)),
        res is Ok ==> final(env)@.stack[old(env)@.stack.len() - 1] == old(env)@.top(),
    decreases d,
{
    reveal(expand_spec);
    reveal(expand_elems_spec);
    if d == 0 {
        return Err(RuntimeError::StackOverflow);
    }
    let ghost s = env@;
    let args = match list_items_exec(env, first) {
        None => {
            return Err(RuntimeError::StackOverflow);
        },
        Some(a) => a,
    };
    let n = args.len();
    let np = names.pre.len();
    let nq = names.post.len();
    if n < np || n - np < nq {
        return Err(RuntimeError::NoCurryingMacro);
    }
    if n - np != nq && names.rest.is_none() {
        return Err(RuntimeError::TooManyArgumentsMacro);
    }
    let k = env.depth() - 1;
    let old_len = env.frame_len(k);
    let frame = bind_macro_exec(env, names, &args);
    let ghost s1 = env@;
    let ghost binds = frame_view(frame);
    let mut i: usize = 0;
    assert(binds.take(0) =~= Seq::<(Seq<char>, ObjectReference)>::empty());
    assert(s1.stack[k as int] + binds.take(0) =~= s1.stack[k as int]);
    assert(s1.stack.update(k as int, s1.stack[k as int] + binds.take(0)) =~= s1.stack);
    assert(with_bindings(s1, k as int, binds.take(0)) == s1);
    while i < frame.len()
        invariant
            i <= frame@.len(),
            binds == frame_view(frame),
            k == s1.stack.len() - 1,
            s1.wf(),
            frame_valid(s1, binds),
            env@ == with_bindings(s1, k as int, binds.take(i as int)),
            env@.wf(),
        decreases frame@.len() - i,
    {
        reveal(expand_spec);
        reveal(expand_elems_spec);
        assert(binds[i as int] == crate::object::binding_view(frame@[i as int]));
        assert(s1.valid(binds[i as int].1));
        env.bind_top(frame[i].0.duplicate(), frame[i].1);
        assert(s1.stack[k as int] + binds.take(i + 1) =~= (s1.stack[k as int] + binds.take(i as int)).push(binds[i as int]));
        i = i + 1;
        assert(env@ =~= with_bindings(s1, k as int, binds.take(i as int)));
    }
    assert(binds.take(frame@.len() as int) =~= binds);
    let ghost s2 = env@;
    let r = expand_elems_at(env, code, d - 1, floats);
    let ghost s3 = env@;
    proof {
        lemma_grows_trans(s, s1, s2);
        lemma_agree_trans(*floats, s, s1, s2);
        lemma_grows_trans(s, s2, s3);
        lemma_agree_trans(*floats, s, s2, s3);
    }
    match r {
        Err(er) => {
            proof {
                assert forall|lq: Seq<FloatAnswer>| extends(lq, env@.floats) implies #[trigger] expand_spec(s, names@, first, code@, d as nat, lq) == (env@, refs_view(Err::<Vec<ObjectReference>, RuntimeError>(er))) by {
                    assert(expand_elems_spec(s2, code@, 0, Seq::empty(), (d - 1) as nat, lq) == (s3, Err::<Seq<ObjectReference>, ErrV>(er@)));
                }
            }
            Err(er)
        },
        Ok(exps) => {
            env.truncate_frame(k, old_len);
            proof {
                assert(env@.stack[k as int] == cut(s3.stack[k as int], old_len as int));
                assert(env@.stack[k as int] =~= s.top());
                assert forall|lq: Seq<FloatAnswer>| extends(lq, env@.floats) implies #[trigger] expand_spec(s, names@, first, code@, d as nat, lq) == (env@, refs_view(Ok::<Vec<ObjectReference>, RuntimeError>(exps))) by {
                    assert(expand_elems_spec(s2, code@, 0, Seq::empty(), (d - 1) as nat, lq) == (s3, Ok::<Seq<ObjectReference>, ErrV>(exps@)));
                }
            }
            Ok(exps)
        },
    }
}

fn expand_elems_at<F: FloatOps>(env: &mut Env, xs: &Vec<ObjectReference>, d: u64, floats: &F) -> (res: Result<Vec<ObjectReference>, RuntimeError>)
    requires
        old(env)@.wf(),
        forall|j: int| 0 <= j < xs@.len() ==> old(env)@.valid(#[trigger] xs@[j]),
    ensures
        final(env)@.wf(),
        old(env)@.grows_to(final(env)@),
        answers_agree(*floats, old(env)@, final(env)@),
        res matches Ok(v) ==> forall|j: int| 0 <= j < v@.len() ==> final(env)@.valid(#[trigger] v@[j]),
        forall|lq: Seq<FloatAnswer>| extends(lq, final(env)@.floats) ==> #[trigger] expand_elems_spec(old(env)@, xs@, 0, Seq::empty(), d as nat, lq) == (final(env)@, refs_view(res)),
    decreases d,
{
    reveal(expand_elems_spec);
    reveal(expand_once_spec);
    let ghost s0 = env@;
    let mut acc: Vec<ObjectReference> = Vec::new();
    let mut i: usize = 0;
    while i < xs.len()
        invariant
            s0 == old(env)@,
            i <= xs@.len(),
            env@.wf(),
            s0.grows_to(env@),
            answers_agree(*floats, s0, env@),
            forall|j: int| 0 <= j < xs@.len() ==> s0.valid(#[trigger] xs@[j]),
            forall|j: int| 0 <= j < acc@.len() ==> env@.valid(#[trigger] acc@[j]),
            forall|lq: Seq<FloatAnswer>| extends(lq, env@.floats) ==> #[trigger] expand_elems_spec(s0, xs@, 0, Seq::empty(), d as nat, lq) == expand_elems_spec(env@, xs@, i as int, acc@, d as nat, lq),
        decreases xs@.len() - i,
    {
        reveal(expand_elems_spec);
        reveal(expand_once_spec);
        if d == 0 {
            return Err(RuntimeError::StackOverflow);
        }
        let ghost si = env@;
        let ghost ai = acc@;
        let r = expand_once_at(env, xs[i], d - 1, floats);
        proof {
            lemma_grows_trans(s0, si, env@);
            lemma_agree_trans(*floats, s0, si, env@);
        }
        match r {
            Err(er) => {
                proof {
                    assert forall|lq: Seq<FloatAnswer>| extends(lq, env@.floats) implies #[trigger] expand_elems_spec(s0, xs@, 0, Seq::empty(), d as nat, lq) == (env@, refs_view(Err::<Vec<ObjectReference>, RuntimeError>(er))) by {
                        lemma_extends_from(lq, si, env@);
                        assert(expand_once_spec(si, xs@[i as int], (d - 1) as nat, lq) == (env@, res_view(Err::<ObjectReference, RuntimeError>(er))));
                        assert(expand_elems_spec(si, xs@, i as int, ai, d as nat, lq) == (env@, Err::<Seq<ObjectReference>, ErrV>(er@)));
                    }
                }
                return Err(er);
            },
            Ok(v) => {
                acc.push(v);
                proof {
                    assert forall|lq: Seq<FloatAnswer>| extends(lq, env@.floats) implies #[trigger] expand_elems_spec(s0, xs@, 0, Seq::empty(), d as nat, lq) == expand_elems_spec(env@, xs@, i + 1, acc@, d as nat, lq) by {
                        lemma_extends_from(lq, si, env@);
                        assert(expand_once_spec(si, xs@[i as int], (d - 1) as nat, lq) == (env@, res_view(Ok::<ObjectReference, RuntimeError>(v))));
                        assert(expand_elems_spec(si, xs@, i as int, ai, d as nat, lq) == expand_elems_spec(env@, xs@, i + 1, acc@, d as nat, lq));
                    }
                }
            },
        }
        i = i + 1;
    }
    Ok(acc)
}

fn expand_once_at<F: FloatOps>(env: &mut Env, o: ObjectReference, d: u64, floats: &F) -> (res: Result<ObjectReference, RuntimeError>)
    requires
        old(env)@.wf(),
        old(env)@.valid(o),
    ensures
        final(env)@.wf(),
        old(env)@.grows_to(final(env)@),
        answers_agree(*floats, old(env)@, final(env)@),
        res matches Ok(x) ==> final(env)@.valid(x),
        forall|lq: Seq<FloatAnswer>| extends(lq, final(env)@.floats) ==> #[trigger] expand_once_spec(old(env)@, o, d as nat, lq) == (final(env)@, res_view(res)),
    decreases d,
{
    reveal(expand_once_spec);
    reveal(expand_elems_spec);
    reveal(eval_inner_spec);
    if d == 0 {
        return Err(RuntimeError::StackOverflow);
    }
    let ghost s = env@;
    proof {
        lemma_obj_refs(s, o);
    }
    let obj = env.get(o).duplicate();
    match obj {
        LispObject::Pair(h, t) => {
            proof {
                assert(s.obj(o) == ObjV::Pair(h, t));
            }
            let rh = expand_once_at(env, h, d - 1, floats);
            let ghost s1 = env@;
            let h2 = match rh {
                Ok(v) => v,
                Err(er) => {
                    proof {
                        assert forall|lq: Seq<FloatAnswer>| extends(lq, env@.floats) implies #[trigger] expand_once_spec(s, o, d as nat, lq) == (env@, res_view(Err::<ObjectReference, RuntimeError>(er))) by {
                            assert(expand_once_spec(s, h, (d - 1) as nat, lq) == (s1, Err::<ObjectReference, ErrV>(er@)));
                        }
                    }
                    return Err(er);
                },
            };
            let rt = expand_once_at(env, t, d - 1, floats);
            let ghost s2 = env@;
            proof {
                lemma_grows_trans(s, s1, s2);
                lemma_agree_trans(*floats, s, s1, s2);
            }
            let r = match rt {
                Err(er) => Err(er),
                Ok(t2) => {
                    if h2 == h && t2 == t {
                        Ok(o)
                    } else {
                        Ok(env.create_object(LispObject::Pair(h2, t2)))
                    }
                },
            };
            proof {
                lemma_grows_trans(s, s2, env@);
                lemma_agree_trans(*floats, s, s2, env@);
                assert forall|lq: Seq<FloatAnswer>| extends(lq, env@.floats) implies #[trigger] expand_once_spec(s, o, d as nat, lq) == (env@, res_view(r)) by {
                    lemma_extends_from(lq, s1, env@);
                    lemma_extends_from(lq, s2, env@);
                    assert(expand_once_spec(s, h, (d - 1) as nat, lq) == (s1, Ok::<ObjectReference, ErrV>(h2)));
                    assert(expand_once_spec(s1, t, (d - 1) as nat, lq) == (s2, res_view(rt)));
                }
            }
            r
        },
        LispObject::Array(xs) => {
            proof {
                assert(s.obj(o) == ObjV::Array(xs@));
                assert forall|j: int| 0 <= j < xs@.len() implies s.valid(#[trigger] xs@[j]) by {
                    assert(s.obj(o)->Array_0[j] == xs@[j]);
                }
            }
            let ra = expand_elems_at(env, &xs, d - 1, floats);
            let ghost s1 = env@;
            let r = match ra {
                Err(er) => Err(er),
                Ok(ys) => {
                    if same_refs(&ys, &xs) {
                        Ok(o)
                    } else {
                        Ok(env.create_object(LispObject::Array(ys)))
                    }
                },
            };
            proof {
                assert forall|lq: Seq<FloatAnswer>| extends(lq, env@.floats) implies #[trigger] expand_once_spec(s, o, d as nat, lq) == (env@, res_view(r)) by {
                    lemma_extends_from(lq, s1, env@);
                    assert(expand_elems_spec(s, xs@, 0, Seq::empty(), (d - 1) as nat, lq) == (s1, refs_view(ra)));
                }
            }
            r
        },
        LispObject::Lambda { params, ret_ty, body } => {
            proof {
                assert(s.obj(o) == ObjV::Lambda { params: params@, ret_ty: opt_type_view(ret_ty), body: body@ });
                assert forall|j: int| 0 <= j < body@.len() implies s.valid(#[trigger] body@[j]) by {
                    assert(s.obj(o)->body[j] == body@[j]);
                }
            }
            let ra = expand_elems_at(env, &body, d - 1, floats);
            let ghost s1 = env@;
            let r = match ra {
                Err(er) => Err(er),
                Ok(ys) => {
                    if same_refs(&ys, &body) {
                        Ok(o)
                    } else {
                        Ok(env.create_object(LispObject::Lambda { params, ret_ty, body: ys }))
                    }
                },
            };
            proof {
                assert forall|lq: Seq<FloatAnswer>| extends(lq, env@.floats) implies #[trigger] expand_once_spec(s, o, d as nat, lq) == (env@, res_view(r)) by {
                    lemma_extends_from(lq, s1, env@);
                    assert(expand_elems_spec(s, body@, 0, Seq::empty(), (d - 1) as nat, lq) == (s1, refs_view(ra)));
                }
            }
            r
        },
        LispObject::Macro { params, body } => {
            proof {
                assert(s.obj(o) == ObjV::Macro { names: params@, code: body@ });
                assert forall|j: int| 0 <= j < body@.len() implies s.valid(#[trigger] body@[j]) by {
                    assert(s.obj(o)->code[j] == body@[j]);
                }
            }
            let ra = expand_elems_at(env, &body, d - 1, floats);
            let ghost s1 = env@;
            let r = match ra {
                Err(er) => Err(er),
                Ok(ys) => {
                    if same_refs(&ys, &body) {
                        Ok(o)
                    } else {
                        Ok(env.create_object(LispObject::Macro { params, body: ys }))
                    }
                },
            };
            proof {
                assert forall|lq: Seq<FloatAnswer>| extends(lq, env@.floats) implies #[trigger] expand_once_spec(s, o, d as nat, lq) == (env@, res_view(r)) by {
                    lemma_extends_from(lq, s1, env@);
                    assert(expand_elems_spec(s, body@, 0, Seq::empty(), (d - 1) as nat, lq) == (s1, refs_view(ra)));
                }
            }
            r
        },
        LispObject::Unquote(i) => {
            proof {
                assert(s.obj(o) == ObjV::Unquote(i));
            }
            let r = eval_inner_at(env, i, d - 1, floats);
            proof {
                assert forall|lq: Seq<FloatAnswer>| extends(lq, env@.floats) implies #[trigger] expand_once_spec(s, o, d as nat, lq) == (env@, res_view(r)) by {
                    assert(eval_inner_spec(s, i, (d - 1) as nat, lq) == (env@, res_view(r)));
                }
            }
            r
        },
        _ => {
            proof {
                assert(!(s.obj(o) is Pair) && !(s.obj(o) is Array) && !(s.obj(o) is Lambda) && !(s.obj(o) is Macro) && !(s.obj(o) is Unquote));
                assert forall|lq: Seq<FloatAnswer>| extends(lq, env@.floats) implies #[trigger] expand_once_spec(s, o, d as nat, lq) == (env@, res_view(Ok::<ObjectReference, RuntimeError>(o))) by {
                }
            }
            Ok(o)
        },
    }
}

fn call_dyadic_at<F: FloatOps>(env: &mut Env, f: crate::object::Dyadic, x: ObjectReference, d: u64, floats: &F) -> (res: Result<ObjectReference, RuntimeError>)
    requires
        old(env)@.wf(),
        old(env)@.valid(x),
    ensures
        final(env)@.wf(),
        old(env)@.grows_to(final(env)@),
        answers_agree(*floats, old(env)@, final(env)@),
        res matches Ok(x) ==> final(env)@.valid(x),
        forall|lq: Seq<FloatAnswer>| extends(lq, final(env)@.floats) ==> #[trigger] call_dyadic_spec(old(env)@, f, x, d as nat, lq) == (final(env)@, res_view(res)),
    decreases d,
{
    reveal(call_dyadic_spec);
    reveal(eval_inner_spec);
    if d == 0 {
        return Err(RuntimeError::StackOverflow);
    }
    let ghost s = env@;
    proof {
        lemma_obj_refs(s, x);
    }
    let (la, x2) = match env.get(x) {
        LispObject::Pair(a, b) => (*a, *b),
        _ => {
            proof {
                assert(!(s.obj(x) is Pair));
                assert forall|lq: Seq<FloatAnswer>| extends(lq, env@.floats) implies #[trigger] call_dyadic_spec(s, f, x, d as nat, lq) == (env@, res_view(Err::<ObjectReference, RuntimeError>(RuntimeError::NoCurrying))) by {
                }
            }
            return Err(RuntimeError::NoCurrying);
        },
    };
    proof {
        assert(s.obj(x) == ObjV::Pair(la, x2));
    }
    let rl = eval_inner_at(env, la, d - 1, floats);
    let ghost s1 = env@;
    let lr = match rl {
        Ok(v) => v,
        Err(er) => {
            proof {
                assert forall|lq: Seq<FloatAnswer>| extends(lq, env@.floats) implies #[trigger] call_dyadic_spec(s, f, x, d as nat, lq) == (env@, res_view(Err::<ObjectReference, RuntimeError>(er))) by {
                    assert(eval_inner_spec(s, la, (d - 1) as nat, lq) == (s1, Err::<ObjectReference, ErrV>(er@)));
                }
            }
            return Err(er);
        },
    };
    proof {
        lemma_obj_refs(s1, lr);
        lemma_obj_refs(s1, x2);
    }
    let lv = env.get(lr).duplicate();
    let ra = match env.get(x2) {
        LispObject::Pair(a, _) => *a,
        _ => {
            proof {
                assert(!(s1.obj(x2) is Pair));
                assert forall|lq: Seq<FloatAnswer>| extends(lq, env@.floats) implies #[trigger] call_dyadic_spec(s, f, x, d as nat, lq) == (env@, res_view(Err::<ObjectReference, RuntimeError>(RuntimeError::NoCurrying))) by {
                    assert(eval_inner_spec(s, la, (d - 1) as nat, lq) == (s1, Ok::<ObjectReference, ErrV>(lr)));
                }
            }
            return Err(RuntimeError::NoCurrying);
        },
    };
    proof {
        assert(s1.obj(x2) matches ObjV::Pair(a, _) && a == ra);
    }
    let rr = eval_inner_at(env, ra, d - 1, floats);
    let ghost s2 = env@;
    proof {
        lemma_grows_trans(s, s1, s2);
        lemma_agree_trans(*floats, s, s1, s2);
    }
    let r2 = match rr {
        Ok(v) => v,
        Err(er) => {
            proof {
                assert forall|lq: Seq<FloatAnswer>| extends(lq, env@.floats) implies #[trigger] call_dyadic_spec(s, f, x, d as nat, lq) == (env@, res_view(Err::<ObjectReference, RuntimeError>(er))) by {
                    lemma_extends_from(lq, s1, env@);
                    assert(eval_inner_spec(s, la, (d - 1) as nat, lq) == (s1, Ok::<ObjectReference, ErrV>(lr)));
                    assert(eval_inner_spec(s1, ra, (d - 1) as nat, lq) == (s2, Err::<ObjectReference, ErrV>(er@)));
                }
            }
            return Err(er);
        },
    };
    proof {
        lemma_obj_refs(s2, r2);
        lemma_refs_below_mono(lv@, s1.objects.len(), s2.objects.len());
    }
    let rv = env.get(r2).duplicate();
    let r = dyadic_exec(env, f, lv, rv, floats);
    proof {
        lemma_grows_trans(s, s2, env@);
        lemma_agree_trans(*floats, s, s2, env@);
        assert forall|lq: Seq<FloatAnswer>| extends(lq, env@.floats) implies #[trigger] call_dyadic_spec(s, f, x, d as nat, lq) == (env@, res_view(r)) by {
            lemma_extends_from(lq, s1, env@);
            lemma_extends_from(lq, s2, env@);
            assert(eval_inner_spec(s, la, (d - 1) as nat, lq) == (s1, Ok::<ObjectReference, ErrV>(lr)));
            assert(eval_inner_spec(s1, ra, (d - 1) as nat, lq) == (s2, Ok::<ObjectReference, ErrV>(r2)));
            assert(dyadic_spec(s2, f, s1.obj(lr), s2.obj(r2), lq) == (env@, res_view(r)));
        }
    }
    r
}

fn call_monadic_at<F: FloatOps>(env: &mut Env, f: Monadic, x: ObjectReference, d: u64, floats: &F) -> (res: Result<ObjectReference, RuntimeError>)
    requires
        old(env)@.wf(),
        old(env)@.valid(x),
    ensures
        final(env)@.wf(),
        old(env)@.grows_to(final(env)@),
        answers_agree(*floats, old(env)@, final(env)@),
        res matches Ok(x) ==> final(env)@.valid(x),
        forall|lq: Seq<FloatAnswer>| extends(lq, final(env)@.floats) ==> #[trigger] call_monadic_spec(old(env)@, f, x, d as nat, lq) == (final(env)@, res_view(res)),
    decreases d,
{
    reveal(call_monadic_spec);
    reveal(eval_inner_spec);
    if d == 0 {
        return Err(RuntimeError::StackOverflow);
    }
    let ghost s = env@;
    proof {
        lemma_obj_refs(s, x);
    }
    let a = match env.get(x) {
        LispObject::Pair(a, _) => *a,
        _ => {
            proof {
                assert(!(s.obj(x) is Pair));
                assert forall|lq: Seq<FloatAnswer>| extends(lq, env@.floats) implies #[trigger] call_monadic_spec(s, f, x, d as nat, lq) == (env@, res_view(Err::<ObjectReference, RuntimeError>(RuntimeError::NoCurrying))) by {
                }
            }
            return Err(RuntimeError::NoCurrying);
        },
    };
    proof {
        assert(s.obj(x) matches ObjV::Pair(h, _) && h == a);
    }
    let rv = eval_inner_at(env, a, d - 1, floats);
    let ghost s1 = env@;
    let v = match rv {
        Ok(v) => v,
        Err(er) => {
            proof {
                assert forall|lq: Seq<FloatAnswer>| extends(lq, env@.floats) implies #[trigger] call_monadic_spec(s, f, x, d as nat, lq) == (env@, res_view(Err::<ObjectReference, RuntimeError>(er))) by {
                    assert(eval_inner_spec(s, a, (d - 1) as nat, lq) == (s1, Err::<ObjectReference, ErrV>(er@)));
                }
            }
            return Err(er);
        },
    };
    proof {
        lemma_obj_refs(s1, v);
    }
    let val = env.get(v).duplicate();
    let r = match f {
        Monadic::Print => crate::builtins::print(env, val, floats),
        Monadic::Println => crate::builtins::println(env, val, floats),
    };
    proof {
        lemma_grows_trans(s, s1, env@);
        lemma_agree_trans(*floats, s, s1, env@);
        assert forall|lq: Seq<FloatAnswer>| extends(lq, env@.floats) implies #[trigger] call_monadic_spec(s, f, x, d as nat, lq) == (env@, res_view(r)) by {
            lemma_extends_from(lq, s1, env@);
            assert(eval_inner_spec(s, a, (d - 1) as nat, lq) == (s1, Ok::<ObjectReference, ErrV>(v)));
        }
    }
    r
}

/// Evaluates an expression as a statement; see `eval_top_spec`, with the
/// depth budget `EVAL_DEPTH`. Float operations are asked of `floats`.
pub fn eval_top<F: FloatOps>(env: &mut Env, expr: ObjectReference, floats: &F) -> (res: Result<ObjectReference, RuntimeError>)
    requires
        old(env)@.wf(),
        old(env)@.valid(expr),
    ensures
        final(env)@.wf(),
        old(env)@.grows_to(final(env)@),
        answers_agree(*floats, old(env)@, final(env)@),
        res matches Ok(x) ==> final(env)@.valid(x),
        forall|lq: Seq<FloatAnswer>| extends(lq, final(env)@.floats) ==> #[trigger] eval_top_spec(old(env)@, expr, EVAL_DEPTH as nat, lq) == (final(env)@, res_view(res)),
{
    eval_top_at(env, expr, EVAL_DEPTH, floats)
}

/// The value of an expression; see `eval_inner_spec`, with the depth budget `EVAL_DEPTH`.
pub fn eval_inner<F: FloatOps>(env: &mut Env, expr: ObjectReference, floats: &F) -> (res: Result<ObjectReference, RuntimeError>)
    requires
        old(env)@.wf(),
        old(env)@.valid(expr),
    ensures
        final(env)@.wf(),
        old(env)@.grows_to(final(env)@),
        answers_agree(*floats, old(env)@, final(env)@),
        res matches Ok(x) ==> final(env)@.valid(x),
        forall|lq: Seq<FloatAnswer>| extends(lq, final(env)@.floats) ==> #[trigger] eval_inner_spec(old(env)@, expr, EVAL_DEPTH as nat, lq) == (final(env)@, res_view(res)),
{
    eval_inner_at(env, expr, EVAL_DEPTH, floats)
}

/// Expands the body of a macro for the arguments in the list at `first_arg`;
/// see `expand_spec`, with the depth budget `EVAL_DEPTH`.
pub fn expand<F: FloatOps>(env: &mut Env, params: &MacroArgs, first_arg: ObjectReference, body: &Vec<ObjectReference>, floats: &F) -> (res: Result<Vec<ObjectReference>, RuntimeError>)
    requires
        old(env)@.wf(),
        old(env)@.valid(first_arg),
        forall|j: int| 0 <= j < body@.len() ==> old(env)@.valid(#[trigger] body@[j]),
    ensures
        final(env)@.wf(),
        old(env)@.grows_to(final(env)@),
        answers_agree(*floats, old(env)@, final(env)@),
        res matches Ok(v) ==> forall|j: int| 0 <= j < v@.len() ==> final(env)@.valid(#[trigger] v@[j]),
        forall|lq: Seq<FloatAnswer>| extends(lq, final(env)@.floats) ==> #[trigger] expand_spec(old(env)@, params@, first_arg, body@, EVAL_DEPTH as nat, lq) == (final(env)@, refs_view(res)),
        // The arguments do not outlive the expansion: once it is done, the
        // scope it ran in holds the bindings it held before, and no others.
        res is Ok ==> final(env)@.stack[old(env)@.stack.len() - 1] == old(env)@.top(),
{
    expand_at(env, params, first_arg, body, EVAL_DEPTH, floats)
}

} // verus!
