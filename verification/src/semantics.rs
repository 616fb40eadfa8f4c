//! What evaluation does, stated as spec functions over the model of the
//! environment.
//!
//! Every function takes a depth budget `d`: a nested step gets `d - 1`, and a
//! step with no budget left fails with `StackOverflow`. Lists are walked at
//! most `WALK_LIMIT` cells far. Float operations take their answers from
//! `lq`, at the position of the next answer to record.
use vstd::prelude::*;

use crate::builtins::{arith_spec, compare_spec, declare_spec, fresh, mod_spec, set_spec, Reply};
use crate::convert::obj_tree;
use crate::error::ErrV;
use crate::float::{ArithOp, CompareOp};
use crate::forms::{defun_spec, lambda_spec, macro_spec};
use crate::object::{
    answer_text, cut, frame_lookup, obj_type, Dyadic, EnvV, FloatAnswer, Monadic, ObjV, ObjectReference,
    VarargMacro,
};
use crate::render::obj_text;
use crate::text::nil_text;
use crate::tree::{ArgsV, TypeV};

verus! {

/// The depth budget of a top-level evaluation.
pub const EVAL_DEPTH: u64 = 10000;

/// How many cells of an argument list are walked at most: more than memory
/// can hold, so that every list that ends is walked to its end.
pub const WALK_LIMIT: u64 = 0xffff_ffff_ffff_ffff;

/// How many scopes may be open when a function is called.
pub const RECURSION_LIMIT: usize = 50;

/// How deep a printed value is followed.
pub const TREE_DEPTH: u64 = 10000;

/// The result of a step that gives a list of references.
pub type Replies = (EnvV, Result<Seq<ObjectReference>, ErrV>);

/// The error of a declared type that a value does not have.
pub open spec fn guard(t: Option<TypeV>, actual: TypeV) -> Option<ErrV> {
    match t {
        Some(x) => if x != actual {
            Some(ErrV::TypeError { expected: Some(x), actual: Some(actual) })
        } else {
            None
        },
        None => None,
    }
}

/// The first type error among the values `vs[i..]` for the parameters `ps[i..]`.
pub open spec fn first_bad(s: EnvV, ps: Seq<(Seq<char>, Option<TypeV>)>, vs: Seq<ObjectReference>, i: int) -> Option<ErrV>
    decreases ps.len() - i,
{
    if i < 0 || i >= ps.len() {
        None
    } else {
        match guard(ps[i].1, obj_type(s.obj(vs[i]))) {
            Some(e) => Some(e),
            None => first_bad(s, ps, vs, i + 1),
        }
    }
}

/// The first type error among the values `vs[i..]`, all declared `t`.
pub open spec fn first_bad_all(s: EnvV, t: Option<TypeV>, vs: Seq<ObjectReference>, i: int) -> Option<ErrV>
    decreases vs.len() - i,
{
    if i < 0 || i >= vs.len() {
        None
    } else {
        match guard(t, obj_type(s.obj(vs[i]))) {
            Some(e) => Some(e),
            None => first_bad_all(s, t, vs, i + 1),
        }
    }
}

/// Each name of `ps` bound to the value at the same position of `vs`.
pub open spec fn zip<T>(ps: Seq<(Seq<char>, T)>, vs: Seq<ObjectReference>) -> Seq<(Seq<char>, ObjectReference)> {
    Seq::new(ps.len(), |i: int| (ps[i].0, vs[i]))
}

/// Each name bound to the value at the same position.
pub open spec fn zip_names(ns: Seq<Seq<char>>, vs: Seq<ObjectReference>) -> Seq<(Seq<char>, ObjectReference)> {
    Seq::new(ns.len(), |i: int| (ns[i], vs[i]))
}

/// The scope of a function call: the leading parameters take the first
/// values, the trailing ones the last, and the variadic one a new array of
/// those in between. Each value is checked against its declared type, in
/// that order; the array is made once the values it holds are checked.
pub open spec fn bind_lambda(s: EnvV, params: ArgsV<(Seq<char>, Option<TypeV>)>, vals: Seq<ObjectReference>) -> (EnvV, Result<Seq<(Seq<char>, ObjectReference)>, ErrV>) {
    let np = params.pre.len() as int;
    let n = vals.len() as int;
    let tail = vals.skip(n - params.post.len());
    match first_bad(s, params.pre, vals.take(np), 0) {
        Some(e) => (s, Err(e)),
        None => match params.rest {
            None => match first_bad(s, params.post, tail, 0) {
                Some(e) => (s, Err(e)),
                None => (s, Ok(zip(params.pre, vals.take(np)) + zip(params.post, tail))),
            },
            Some(rp) => {
                let mid = vals.subrange(np, n - params.post.len());
                match first_bad_all(s, rp.1, mid, 0) {
                    Some(e) => (s, Err(e)),
                    None => {
                        let s1 = s.with_object(ObjV::Array(mid));
                        let rr = ObjectReference(s.objects.len() as usize);
                        match first_bad(s1, params.post, tail, 0) {
                            Some(e) => (s1, Err(e)),
                            None => (s1, Ok(zip(params.pre, vals.take(np)) + seq![(rp.0, rr)] + zip(params.post, tail))),
                        }
                    },
                }
            },
        },
    }
}

/// The bindings of a macro call, made the same way with no types to check.
pub open spec fn bind_macro(s: EnvV, names: ArgsV<Seq<char>>, args: Seq<ObjectReference>) -> (EnvV, Seq<(Seq<char>, ObjectReference)>) {
    let np = names.pre.len() as int;
    let n = args.len() as int;
    let tail = args.skip(n - names.post.len());
    match names.rest {
        None => (s, zip_names(names.pre, args.take(np)) + zip_names(names.post, tail)),
        Some(r) => {
            let mid = args.subrange(np, n - names.post.len());
            let rr = ObjectReference(s.objects.len() as usize);
            (s.with_object(ObjV::Array(mid)), zip_names(names.pre, args.take(np)) + seq![(r, rr)] + zip_names(names.post, tail))
        },
    }
}

/// The items of the list at `cur` after those in `acc`, walking at most `k`
/// cells; `None` if that does not reach its end.
pub open spec fn list_items(s: EnvV, cur: ObjectReference, acc: Seq<ObjectReference>, k: nat) -> Option<Seq<ObjectReference>>
    decreases k,
{
    if k == 0 {
        None
    } else {
        match s.obj(cur) {
            ObjV::Pair(a, n) => list_items(s, n, acc.push(a), (k - 1) as nat),
            _ => Some(acc),
        }
    }
}

/// A builtin of two evaluated arguments.
pub open spec fn dyadic_spec(s: EnvV, f: Dyadic, l: ObjV, r: ObjV, lq: Seq<FloatAnswer>) -> Reply {
    match f {
        Dyadic::Assign => set_spec(s, l, r),
        Dyadic::Declare => declare_spec(s, l, r),
        Dyadic::Add => arith_spec(s, ArithOp::Add, l, r, lq),
        Dyadic::Mul => arith_spec(s, ArithOp::Mul, l, r, lq),
        Dyadic::Sub => arith_spec(s, ArithOp::Sub, l, r, lq),
        Dyadic::Div => arith_spec(s, ArithOp::Div, l, r, lq),
        Dyadic::Mod => mod_spec(s, l, r),
        Dyadic::Eq => compare_spec(s, CompareOp::Eq, l, r, lq),
        Dyadic::Lt => compare_spec(s, CompareOp::Lt, l, r, lq),
        Dyadic::Gt => compare_spec(s, CompareOp::Gt, l, r, lq),
        Dyadic::Le => compare_spec(s, CompareOp::Le, l, r, lq),
        Dyadic::Ge => compare_spec(s, CompareOp::Ge, l, r, lq),
    }
}

/// The texts, each with the bits it was given for, that the answers from
/// position `k` of `lq` on give for floats.
pub open spec fn texts_from(lq: Seq<FloatAnswer>, k: int) -> Seq<(u64, Seq<char>)> {
    lq.subrange(k, lq.len() as int).map_values(|a: FloatAnswer| answer_text(a))
}

/// `print` and `println`: the text of the value (see `obj_text`) is added to
/// the output, with whether a line break follows it; its floats take their
/// texts from the next answers, which are recorded. The result is a new
/// `nil`. A value whose tree does not end within `TREE_DEPTH` is not printed.
pub open spec fn print_spec(s: EnvV, val: ObjV, newline: bool, lq: Seq<FloatAnswer>) -> Reply {
    let k = s.floats.len() as int;
    let ft = texts_from(lq, k);
    match obj_tree(s, val, TREE_DEPTH as nat) {
        None => (s, Err(ErrV::StackOverflow)),
        Some(_) => match obj_text(s, val, TREE_DEPTH as nat, ft) {
            Some((t, rest)) => fresh(
                EnvV {
                    output: s.output.push((t, newline)),
                    floats: s.floats + lq.subrange(k, k + ft.len() - rest.len()),
                    ..s
                },
                ObjV::Atom(nil_text()),
            ),
            None => (s, Err(ErrV::StackOverflow)),
        },
    }
}

/// A builtin form, given its arguments unevaluated.
pub open spec fn vararg_spec(s: EnvV, f: VarargMacro, args: Seq<ObjectReference>) -> Reply {
    match f {
        VarargMacro::Lambda => lambda_spec(s, args),
        VarargMacro::Macro => macro_spec(s, args),
        VarargMacro::Defun => defun_spec(s, args),
    }
}

/// The scope at position `k` with `binds` added at its end.
pub open spec fn with_bindings(s: EnvV, k: int, binds: Seq<(Seq<char>, ObjectReference)>) -> EnvV {
    EnvV { stack: s.stack.update(k, s.stack[k] + binds), ..s }
}

/// Evaluates an expression as a statement: a quote gives what it quotes, a
/// quasiquote what it expands to, anything else its value.
#[verifier::opaque]
pub open spec fn eval_top_spec(s: EnvV, e: ObjectReference, d: nat, lq: Seq<FloatAnswer>) -> Reply
    decreases d, 0int,
{
    if d == 0 {
        (s, Err(ErrV::StackOverflow))
    } else {
        match s.obj(e) {
            ObjV::Quasiquote(i) => expand_once_spec(s, i, (d - 1) as nat, lq),
            ObjV::Quote(i) => (s, Ok(i)),
            _ => eval_inner_spec(s, e, (d - 1) as nat, lq),
        }
    }
}

/// The value of an expression: a list is a call of its evaluated head with
/// its tail, an atom the object it is bound to in the innermost scope, a
/// quasiquote its expansion, an array a new array of its evaluated items;
/// anything else is its own value.
#[verifier::opaque]
pub open spec fn eval_inner_spec(s: EnvV, e: ObjectReference, d: nat, lq: Seq<FloatAnswer>) -> Reply
    decreases d, 0int,
{
    if d == 0 {
        (s, Err(ErrV::StackOverflow))
    } else {
        match s.obj(e) {
            ObjV::Pair(f, x) => {
                let (s1, rf) = eval_inner_spec(s, f, (d - 1) as nat, lq);
                match rf {
                    Err(er) => (s1, Err(er)),
                    Ok(fr) => apply_spec(s1, s1.obj(fr), x, e, (d - 1) as nat, lq),
                }
            },
            ObjV::Atom(n) => match frame_lookup(s.top(), n) {
                Some(r) => (s, Ok(r)),
                None => (s, Err(ErrV::UndefinedVariable(n))),
            },
            ObjV::Quasiquote(i) => expand_once_spec(s, i, (d - 1) as nat, lq),
            ObjV::Array(xs) => {
                let (s1, r) = eval_elems_spec(s, xs, 0, Seq::empty(), (d - 1) as nat, lq);
                match r {
                    Err(er) => (s1, Err(er)),
                    Ok(ys) => fresh(s1, ObjV::Array(ys)),
                }
            },
            ObjV::Unquote(_) => (s, Err(ErrV::UnquoteOutsideQuasiquote)),
            _ => (s, Ok(e)),
        }
    }
}

/// A call of the function `fv` with the arguments `x`, the call itself being `e`.
#[verifier::opaque]
pub open spec fn apply_spec(s: EnvV, fv: ObjV, x: ObjectReference, e: ObjectReference, d: nat, lq: Seq<FloatAnswer>) -> Reply
    decreases d, 0int,
{
    if d == 0 {
        (s, Err(ErrV::StackOverflow))
    } else {
        match fv {
            ObjV::Lambda { params, ret_ty, body } => if s.stack.len() > RECURSION_LIMIT {
                (s, Err(ErrV::StackOverflow))
            } else {
                let (s1, ra) = eval_args_spec(s, x, Seq::empty(), (d - 1) as nat, WALK_LIMIT as int, lq);
                match ra {
                    Err(er) => (s1, Err(er)),
                    Ok(vals) => call_lambda_spec(s1, params, ret_ty, body, vals, e, (d - 1) as nat, lq),
                }
            },
            ObjV::Macro { names, code } => call_macro_spec(s, names, code, x, e, (d - 1) as nat, lq),
            ObjV::Dyadic(f) => call_dyadic_spec(s, f, x, (d - 1) as nat, lq),
            ObjV::Monadic(f) => call_monadic_spec(s, f, x, (d - 1) as nat, lq),
            ObjV::Vararg(f) => match list_items(s, x, Seq::empty(), WALK_LIMIT as nat) {
                None => (s, Err(ErrV::StackOverflow)),
                Some(args) => vararg_spec(s, f, args),
            },
            _ => (s, Err(ErrV::TypeError { expected: Some(TypeV::Function), actual: None })),
        }
    }
}

/// Evaluates the items of the list at `cur` as statements, one after another,
/// their values after those in `acc`; at most `k` cells are walked.
#[verifier::opaque]
pub open spec fn eval_args_spec(s: EnvV, cur: ObjectReference, acc: Seq<ObjectReference>, d: nat, k: int, lq: Seq<FloatAnswer>) -> Replies
    decreases d, k,
{
    if k <= 0 {
        (s, Err(ErrV::StackOverflow))
    } else {
        match s.obj(cur) {
            ObjV::Pair(a, n) => if d == 0 {
                (s, Err(ErrV::StackOverflow))
            } else {
                let (s1, r) = eval_top_spec(s, a, (d - 1) as nat, lq);
                match r {
                    Err(er) => (s1, Err(er)),
                    Ok(v) => eval_args_spec(s1, n, acc.push(v), d, k - 1, lq),
                }
            },
            _ => (s, Ok(acc)),
        }
    }
}

/// Evaluates `xs[i..]` one after another, their values after those in `acc`;
/// the first error stops it.
#[verifier::opaque]
pub open spec fn eval_elems_spec(s: EnvV, xs: Seq<ObjectReference>, i: int, acc: Seq<ObjectReference>, d: nat, lq: Seq<FloatAnswer>) -> Replies
    decreases d, xs.len() - i,
{
    if i < 0 || i >= xs.len() {
        (s, Ok(acc))
    } else if d == 0 {
        (s, Err(ErrV::StackOverflow))
    } else {
        let (s1, r) = eval_inner_spec(s, xs[i], (d - 1) as nat, lq);
        match r {
            Err(er) => (s1, Err(er)),
            Ok(v) => eval_elems_spec(s1, xs, i + 1, acc.push(v), d, lq),
        }
    }
}

/// Evaluates the statements `body[i..]` one after another, each whatever the
/// ones before gave; the result is that of the last, or `last` if none is left.
#[verifier::opaque]
pub open spec fn eval_body_spec(s: EnvV, body: Seq<ObjectReference>, i: int, last: Result<ObjectReference, ErrV>, d: nat, lq: Seq<FloatAnswer>) -> Reply
    decreases d, body.len() - i,
{
    if i < 0 || i >= body.len() {
        (s, last)
    } else if d == 0 {
        (s, Err(ErrV::StackOverflow))
    } else {
        let (s1, r) = eval_top_spec(s, body[i], (d - 1) as nat, lq);
        eval_body_spec(s1, body, i + 1, r, d, lq)
    }
}

/// A call of a function with its evaluated arguments: too few or (with no
/// variadic parameter) too many are errors; the arguments are bound in a new
/// innermost scope, the body is evaluated there and its result checked
/// against the declared return type, and the scope is closed.
#[verifier::opaque]
pub open spec fn call_lambda_spec(
    s: EnvV,
    params: ArgsV<(Seq<char>, Option<TypeV>)>,
    ret_ty: Option<TypeV>,
    body: Seq<ObjectReference>,
    vals: Seq<ObjectReference>,
    e: ObjectReference,
    d: nat,
    lq: Seq<FloatAnswer>,
) -> Reply
    decreases d, 0int,
{
    if d == 0 {
        (s, Err(ErrV::StackOverflow))
    } else if vals.len() < params.fixed() {
        (s, Err(ErrV::NoCurrying))
    } else if vals.len() != params.fixed() && params.rest is None {
        (s, Err(ErrV::TooManyArguments))
    } else {
        let (s1, fr) = bind_lambda(s, params, vals);
        match fr {
            Err(er) => (s1, Err(er)),
            Ok(frame) => {
                let s2 = EnvV { stack: s1.stack.push(frame), ..s1 };
                let (s3, rb) = eval_body_spec(s2, body, 0, Ok(e), (d - 1) as nat, lq);
                match rb {
                    Err(er) => (s3, Err(er)),
                    Ok(res) => match guard(ret_ty, obj_type(s3.obj(res))) {
                        Some(er) => (s3, Err(er)),
                        None => (EnvV { stack: s3.stack.drop_last(), ..s3 }, Ok(res)),
                    },
                }
            },
        }
    }
}

/// A call of a macro: its body is expanded with the unevaluated arguments
/// bound, and what that gives is evaluated in place of the call.
#[verifier::opaque]
pub open spec fn call_macro_spec(
    s: EnvV,
    names: ArgsV<Seq<char>>,
    code: Seq<ObjectReference>,
    x: ObjectReference,
    e: ObjectReference,
    d: nat,
    lq: Seq<FloatAnswer>,
) -> Reply
    decreases d, 0int,
{
    if d == 0 {
        (s, Err(ErrV::StackOverflow))
    } else {
        let (s1, r) = expand_spec(s, names, x, code, (d - 1) as nat, lq);
        match r {
            Err(er) => (s1, Err(er)),
            Ok(exps) => eval_body_spec(s1, exps, 0, Ok(e), (d - 1) as nat, lq),
        }
    }
}

/// Expands the body of a macro for the unevaluated arguments in the list at
/// `first`: too few or (with no variadic parameter) too many are errors; the
/// arguments are bound at the end of the innermost scope, each item of the
/// body is expanded, and the scope is cut back to what it held before.
#[verifier::opaque]
pub open spec fn expand_spec(
    s: EnvV,
    names: ArgsV<Seq<char>>,
    first: ObjectReference,
    code: Seq<ObjectReference>,
    d: nat,
    lq: Seq<FloatAnswer>,
) -> Replies
    decreases d, 0int,
{
    if d == 0 {
        (s, Err(ErrV::StackOverflow))
    } else {
        match list_items(s, first, Seq::empty(), WALK_LIMIT as nat) {
            None => (s, Err(ErrV::StackOverflow)),
            Some(args) => if args.len() < names.fixed() {
                (s, Err(ErrV::NoCurryingMacro))
            } else if args.len() != names.fixed() && names.rest is None {
                (s, Err(ErrV::TooManyArgumentsMacro))
            } else {
                let k = s.stack.len() - 1;
                let old_len = s.top().len() as int;
                let (s1, binds) = bind_macro(s, names, args);
                let s2 = with_bindings(s1, k, binds);
                let (s3, r) = expand_elems_spec(s2, code, 0, Seq::empty(), (d - 1) as nat, lq);
                match r {
                    Err(er) => (s3, Err(er)),
                    Ok(exps) => (EnvV { stack: s3.stack.update(k, cut(s3.stack[k], old_len)), ..s3 }, Ok(exps)),
                }
            },
        }
    }
}

/// Expands quasiquoted code: each unquote is replaced by its value, pairs,
/// arrays and function bodies are expanded item by item (a new object only
/// where something changed), and anything else is left as it is.
#[verifier::opaque]
pub open spec fn expand_once_spec(s: EnvV, o: ObjectReference, d: nat, lq: Seq<FloatAnswer>) -> Reply
    decreases d, 0int,
{
    if d == 0 {
        (s, Err(ErrV::StackOverflow))
    } else {
        match s.obj(o) {
            ObjV::Pair(h, t) => {
                let (s1, rh) = expand_once_spec(s, h, (d - 1) as nat, lq);
                match rh {
                    Err(er) => (s1, Err(er)),
                    Ok(h2) => {
                        let (s2, rt) = expand_once_spec(s1, t, (d - 1) as nat, lq);
                        match rt {
                            Err(er) => (s2, Err(er)),
                            Ok(t2) => if h2 == h && t2 == t {
                                (s2, Ok(o))
                            } else {
                                fresh(s2, ObjV::Pair(h2, t2))
                            },
                        }
                    },
                }
            },
            ObjV::Array(xs) => {
                let (s1, r) = expand_elems_spec(s, xs, 0, Seq::empty(), (d - 1) as nat, lq);
                match r {
                    Err(er) => (s1, Err(er)),
                    Ok(ys) => if ys == xs {
                        (s1, Ok(o))
                    } else {
                        fresh(s1, ObjV::Array(ys))
                    },
                }
            },
            ObjV::Lambda { params, ret_ty, body } => {
                let (s1, r) = expand_elems_spec(s, body, 0, Seq::empty(), (d - 1) as nat, lq);
                match r {
                    Err(er) => (s1, Err(er)),
                    Ok(ys) => if ys == body {
                        (s1, Ok(o))
                    } else {
                        fresh(s1, ObjV::Lambda { params, ret_ty, body: ys })
                    },
                }
            },
            ObjV::Macro { names, code } => {
                let (s1, r) = expand_elems_spec(s, code, 0, Seq::empty(), (d - 1) as nat, lq);
                match r {
                    Err(er) => (s1, Err(er)),
                    Ok(ys) => if ys == code {
                        (s1, Ok(o))
                    } else {
                        fresh(s1, ObjV::Macro { names, code: ys })
                    },
                }
            },
            ObjV::Unquote(i) => eval_inner_spec(s, i, (d - 1) as nat, lq),
            _ => (s, Ok(o)),
        }
    }
}

/// Expands `xs[i..]` one after another, their results after those in `acc`;
/// the first error stops it.
#[verifier::opaque]
pub open spec fn expand_elems_spec(s: EnvV, xs: Seq<ObjectReference>, i: int, acc: Seq<ObjectReference>, d: nat, lq: Seq<FloatAnswer>) -> Replies
    decreases d, xs.len() - i,
{
    if i < 0 || i >= xs.len() {
        (s, Ok(acc))
    } else if d == 0 {
        (s, Err(ErrV::StackOverflow))
    } else {
        let (s1, r) = expand_once_spec(s, xs[i], (d - 1) as nat, lq);
        match r {
            Err(er) => (s1, Err(er)),
            Ok(y) => expand_elems_spec(s1, xs, i + 1, acc.push(y), d, lq),
        }
    }
}

/// A builtin of two arguments: the first item of the list is evaluated, then
/// the second; missing ones are `NoCurrying`, and further ones are ignored.
#[verifier::opaque]
pub open spec fn call_dyadic_spec(s: EnvV, f: Dyadic, x: ObjectReference, d: nat, lq: Seq<FloatAnswer>) -> Reply
    decreases d, 0int,
{
    if d == 0 {
        (s, Err(ErrV::StackOverflow))
    } else {
        match s.obj(x) {
            ObjV::Pair(la, x2) => {
                let (s1, rl) = eval_inner_spec(s, la, (d - 1) as nat, lq);
                match rl {
                    Err(er) => (s1, Err(er)),
                    Ok(lr) => {
                        let lv = s1.obj(lr);
                        match s1.obj(x2) {
                            ObjV::Pair(ra, _) => {
                                let (s2, rr) = eval_inner_spec(s1, ra, (d - 1) as nat, lq);
                                match rr {
                                    Err(er) => (s2, Err(er)),
                                    Ok(r2) => dyadic_spec(s2, f, lv, s2.obj(r2), lq),
                                }
                            },
                            _ => (s1, Err(ErrV::NoCurrying)),
                        }
                    },
                }
            },
            _ => (s, Err(ErrV::NoCurrying)),
        }
    }
}

/// A builtin of one argument: the first item of the list is evaluated.
#[verifier::opaque]
pub open spec fn call_monadic_spec(s: EnvV, f: Monadic, x: ObjectReference, d: nat, lq: Seq<FloatAnswer>) -> Reply
    decreases d, 0int,
{
    if d == 0 {
        (s, Err(ErrV::StackOverflow))
    } else {
        match s.obj(x) {
            ObjV::Pair(a, _) => {
                let (s1, r) = eval_inner_spec(s, a, (d - 1) as nat, lq);
                match r {
                    Err(er) => (s1, Err(er)),
                    Ok(v) => print_spec(s1, s1.obj(v), f == Monadic::Println, lq),
                }
            },
            _ => (s, Err(ErrV::NoCurrying)),
        }
    }
}

} // verus!
