//! The builtin functions: arithmetic and comparison on integers and floats,
//! assignment, and printing.
//!
//! Each takes its arguments as already evaluated objects. A float operation is
//! asked of the caller's `FloatOps`; the question and its answer are recorded
//! in the environment. The contracts hold for every way in which the answers
//! may go on (`extends`), and each answer recorded is the one that the
//! `FloatOps` names for its question (`answers_agree`).
use vstd::prelude::*;

use crate::error::{ErrV, RuntimeError};
use crate::float::{ArithOp, CompareOp, FloatOps};
use crate::object::{
    answers_agree, lemma_agree_trans,
    assign, extends, obj_type, refs_below, res_view, Env, EnvV, FloatAnswer, LispObject, ObjV,
    ObjectReference,
};
use crate::convert::tree_within;
use crate::render::{obj_string, obj_text};
use crate::semantics::{print_spec, texts_from, TREE_DEPTH};
use crate::small::Name;
use crate::text::{lemma_nil_literal, nil_text, t_text};

verus! {

/// What a step of evaluation gives: the environment after it, and its result.
pub type Reply = (EnvV, Result<ObjectReference, ErrV>);

/// A new object holding `o`, and a reference to it.
pub open spec fn fresh(s: EnvV, o: ObjV) -> Reply {
    (s.with_object(o), Ok(ObjectReference(s.objects.len() as usize)))
}

/// The type error that a builtin reports for two arguments it cannot combine.
pub open spec fn mismatch(l: ObjV, r: ObjV) -> ErrV {
    ErrV::TypeError { expected: Some(obj_type(l)), actual: Some(obj_type(r)) }
}

/// The atom `t` for true, `nil` for false.
pub open spec fn truth(b: bool) -> ObjV {
    if b {
        ObjV::Atom(t_text())
    } else {
        ObjV::Atom(nil_text())
    }
}

/// The answer that the next float operation gets when the answers go on as `lq`.
pub open spec fn answer(s: EnvV, lq: Seq<FloatAnswer>) -> FloatAnswer {
    lq[s.floats.len() as int]
}

/// The environment with a float operation, question and answer, recorded.
pub open spec fn asked(s: EnvV, a: FloatAnswer) -> EnvV {
    EnvV { floats: s.floats.push(a), ..s }
}

pub open spec fn bits_of(a: FloatAnswer) -> u64 {
    match a {
        FloatAnswer::Bits(_, _, _, b) => b,
        _ => 0,
    }
}

pub open spec fn truth_of(a: FloatAnswer) -> bool {
    match a {
        FloatAnswer::Truth(_, _, _, b) => b,
        _ => false,
    }
}

/// Integer division truncating toward zero; `i32::MIN / -1` wraps to `i32::MIN`.
pub open spec fn quotient(x: i32, y: i32) -> i32 {
    match x.checked_div(y) {
        Some(q) => q,
        None => x,
    }
}

/// The remainder of that division, with the sign of `x`; `i32::MIN % -1` is 0.
pub open spec fn remainder(x: i32, y: i32) -> i32 {
    match x.checked_rem(y) {
        Some(q) => q,
        None => 0,
    }
}

/// Integer arithmetic, wrapping on overflow.
pub open spec fn int_arith(op: ArithOp, x: i32, y: i32) -> i32 {
    match op {
        ArithOp::Add => x.wrapping_add(y),
        ArithOp::Sub => x.wrapping_sub(y),
        ArithOp::Mul => x.wrapping_mul(y),
        ArithOp::Div => quotient(x, y),
    }
}

pub open spec fn int_compare(op: CompareOp, x: i32, y: i32) -> bool {
    match op {
        CompareOp::Eq => x == y,
        CompareOp::Lt => x < y,
        CompareOp::Gt => x > y,
        CompareOp::Le => x <= y,
        CompareOp::Ge => x >= y,
    }
}

/// `+`, `-`, `*` and `/`: two floats `x` and `y` give a new float, the caller's
/// answer to `x op y`, with that question and answer recorded; two integers a
/// new integer (dividing by zero is an error); any other pair is a type error
/// naming the two types.
pub open spec fn arith_spec(s: EnvV, op: ArithOp, l: ObjV, r: ObjV, lq: Seq<FloatAnswer>) -> Reply {
    match (l, r) {
        (ObjV::Float(x), ObjV::Float(y)) => {
            let b = bits_of(answer(s, lq));
            fresh(asked(s, FloatAnswer::Bits(op, x, y, b)), ObjV::Float(b))
        },
        (ObjV::Integer(x), ObjV::Integer(y)) => if op == ArithOp::Div && y == 0 {
            (s, Err(ErrV::DivisionByZero))
        } else {
            fresh(s, ObjV::Integer(int_arith(op, x, y)))
        },
        _ => (s, Err(mismatch(l, r))),
    }
}

/// `%`: two integers give their remainder (by zero is an error); anything else is a type error.
pub open spec fn mod_spec(s: EnvV, l: ObjV, r: ObjV) -> Reply {
    match (l, r) {
        (ObjV::Integer(x), ObjV::Integer(y)) => if y == 0 {
            (s, Err(ErrV::DivisionByZero))
        } else {
            fresh(s, ObjV::Integer(remainder(x, y)))
        },
        _ => (s, Err(mismatch(l, r))),
    }
}

/// `=`, `<`, `>`, `<=` and `>=`: a new `t` or `nil`; for two floats `x` and
/// `y`, the caller's answer to whether `x op y` holds, with that question and
/// answer recorded.
pub open spec fn compare_spec(s: EnvV, op: CompareOp, l: ObjV, r: ObjV, lq: Seq<FloatAnswer>) -> Reply {
    match (l, r) {
        (ObjV::Float(x), ObjV::Float(y)) => {
            let b = truth_of(answer(s, lq));
            fresh(asked(s, FloatAnswer::Truth(op, x, y, b)), truth(b))
        },
        (ObjV::Integer(x), ObjV::Integer(y)) => fresh(s, truth(int_compare(op, x, y))),
        _ => (s, Err(mismatch(l, r))),
    }
}

/// `set`: the first argument must be a quoted atom; the variable it names
/// takes the value of the second, and the result is the atom.
pub open spec fn set_spec(s: EnvV, id: ObjV, val: ObjV) -> Reply {
    match id {
        ObjV::Quote(q) => match s.obj(q) {
            ObjV::Atom(name) => (assign(s, name, val), Ok(q)),
            _ => (s, Err(ErrV::AssignmentToNonVariable)),
        },
        _ => (s, Err(ErrV::AssignmentToNonVariable)),
    }
}

/// `declare`: the first argument must be a quoted atom; the variable it names
/// is bound, in the innermost scope, to a new object holding the value of the
/// second, so that other bindings of the old object keep it. The result is the atom.
pub open spec fn declare_spec(s: EnvV, id: ObjV, val: ObjV) -> Reply {
    match id {
        ObjV::Quote(q) => match s.obj(q) {
            ObjV::Atom(name) => (
                EnvV {
                    objects: s.objects.push(val),
                    stack: s.stack.update(s.stack.len() - 1, s.top().push((name, ObjectReference(s.objects.len() as usize)))),
                    ..s
                },
                Ok(q),
            ),
            _ => (s, Err(ErrV::AssignmentToNonVariable)),
        },
        _ => (s, Err(ErrV::AssignmentToNonVariable)),
    }
}

/// Asks `floats` for the bits of `x op y`; the question and its answer are recorded.
fn ask_arith<F: FloatOps>(env: &mut Env, floats: &F, op: ArithOp, x: u64, y: u64) -> (b: u64)
    ensures
        final(env)@ == asked(old(env)@, FloatAnswer::Bits(op, x, y, b)),
        b == floats.arith_of(op, x, y),
{
    let b = floats.arith(op, x, y);
    env.note_float(Ghost(FloatAnswer::Bits(op, x, y, b)));
    b
}

/// Asks `floats` whether `x op y` holds; the question and its answer are recorded.
fn ask_compare<F: FloatOps>(env: &mut Env, floats: &F, op: CompareOp, x: u64, y: u64) -> (b: bool)
    ensures
        final(env)@ == asked(old(env)@, FloatAnswer::Truth(op, x, y, b)),
        b == floats.compare_of(op, x, y),
{
    let b = floats.compare(op, x, y);
    env.note_float(Ghost(FloatAnswer::Truth(op, x, y, b)));
    b
}

fn arith<F: FloatOps>(env: &mut Env, op: ArithOp, l: LispObject, r: LispObject, floats: &F) -> (res: Result<ObjectReference, RuntimeError>)
    requires
        old(env)@.wf(),
    ensures
        final(env)@.wf(),
        old(env)@.grows_to(final(env)@),
        answers_agree(*floats, old(env)@, final(env)@),
        res matches Ok(x) ==> final(env)@.valid(x),
        forall|lq: Seq<FloatAnswer>| extends(lq, final(env)@.floats) ==> #[trigger] arith_spec(old(env)@, op, l@, r@, lq) == (final(env)@, res_view(res)),
{
    let ghost s = env@;
    match (&l, &r) {
        (LispObject::Float(x), LispObject::Float(y)) => {
            let b = ask_arith(env, floats, op, *x, *y);
            let res = env.create_object(LispObject::Float(b));
            proof {
                assert forall|lq: Seq<FloatAnswer>| extends(lq, env@.floats) implies #[trigger] arith_spec(s, op, l@, r@, lq) == (env@, res_view(Ok(res))) by {
                    assert(env@.floats[s.floats.len() as int] == FloatAnswer::Bits(op, *x, *y, b));
                }
            }
            Ok(res)
        },
        (LispObject::Integer(x), LispObject::Integer(y)) => {
            let v = match op {
                ArithOp::Add => x.wrapping_add(*y),
                ArithOp::Sub => x.wrapping_sub(*y),
                ArithOp::Mul => x.wrapping_mul(*y),
                ArithOp::Div => {
                    if *y == 0 {
                        return Err(RuntimeError::DivisionByZero);
                    }
                    match x.checked_div(*y) {
                        Some(q) => q,
                        None => *x,
                    }
                },
            };
            Ok(env.create_object(LispObject::Integer(v)))
        },
        _ => Err(RuntimeError::TypeError { expected: Some(l.type_of()), actual: Some(r.type_of()) }),
    }
}

fn compare<F: FloatOps>(env: &mut Env, op: CompareOp, l: LispObject, r: LispObject, floats: &F) -> (res: Result<ObjectReference, RuntimeError>)
    requires
        old(env)@.wf(),
    ensures
        final(env)@.wf(),
        old(env)@.grows_to(final(env)@),
        answers_agree(*floats, old(env)@, final(env)@),
        res matches Ok(x) ==> final(env)@.valid(x),
        forall|lq: Seq<FloatAnswer>| extends(lq, final(env)@.floats) ==> #[trigger] compare_spec(old(env)@, op, l@, r@, lq) == (final(env)@, res_view(res)),
{
    let ghost s = env@;
    proof {
        lemma_nil_literal();
    }
    match (&l, &r) {
        (LispObject::Float(x), LispObject::Float(y)) => {
            let b = ask_compare(env, floats, op, *x, *y);
            let res = env.create_object(LispObject::Atom(Name::new(if b { "t" } else { "nil" })));
            proof {
                assert forall|lq: Seq<FloatAnswer>| extends(lq, env@.floats) implies #[trigger] compare_spec(s, op, l@, r@, lq) == (env@, res_view(Ok(res))) by {
                    assert(env@.floats[s.floats.len() as int] == FloatAnswer::Truth(op, *x, *y, b));
                }
            }
            Ok(res)
        },
        (LispObject::Integer(x), LispObject::Integer(y)) => {
            let b = match op {
                CompareOp::Eq => *x == *y,
                CompareOp::Lt => *x < *y,
                CompareOp::Gt => *x > *y,
                CompareOp::Le => *x <= *y,
                CompareOp::Ge => *x >= *y,
            };
            Ok(env.create_object(LispObject::Atom(Name::new(if b { "t" } else { "nil" }))))
        },
        _ => Err(RuntimeError::TypeError { expected: Some(l.type_of()), actual: Some(r.type_of()) }),
    }
}

/// `+`: see `arith_spec`.
pub fn add<F: FloatOps>(env: &mut Env, l: LispObject, r: LispObject, floats: &F) -> (res: Result<ObjectReference, RuntimeError>)
    requires
        old(env)@.wf(),
    ensures
        final(env)@.wf(),
        old(env)@.grows_to(final(env)@),
        answers_agree(*floats, old(env)@, final(env)@),
        res matches Ok(x) ==> final(env)@.valid(x),
        forall|lq: Seq<FloatAnswer>| extends(lq, final(env)@.floats) ==> #[trigger] arith_spec(old(env)@, ArithOp::Add, l@, r@, lq) == (final(env)@, res_view(res)),
{
    arith(env, ArithOp::Add, l, r, floats)
}

/// `*`: see `arith_spec`.
pub fn mul<F: FloatOps>(env: &mut Env, l: LispObject, r: LispObject, floats: &F) -> (res: Result<ObjectReference, RuntimeError>)
    requires
        old(env)@.wf(),
    ensures
        final(env)@.wf(),
        old(env)@.grows_to(final(env)@),
        answers_agree(*floats, old(env)@, final(env)@),
        res matches Ok(x) ==> final(env)@.valid(x),
        forall|lq: Seq<FloatAnswer>| extends(lq, final(env)@.floats) ==> #[trigger] arith_spec(old(env)@, ArithOp::Mul, l@, r@, lq) == (final(env)@, res_view(res)),
{
    arith(env, ArithOp::Mul, l, r, floats)
}

/// `-`: see `arith_spec`.
pub fn sub<F: FloatOps>(env: &mut Env, l: LispObject, r: LispObject, floats: &F) -> (res: Result<ObjectReference, RuntimeError>)
    requires
        old(env)@.wf(),
    ensures
        final(env)@.wf(),
        old(env)@.grows_to(final(env)@),
        answers_agree(*floats, old(env)@, final(env)@),
        res matches Ok(x) ==> final(env)@.valid(x),
        forall|lq: Seq<FloatAnswer>| extends(lq, final(env)@.floats) ==> #[trigger] arith_spec(old(env)@, ArithOp::Sub, l@, r@, lq) == (final(env)@, res_view(res)),
{
    arith(env, ArithOp::Sub, l, r, floats)
}

/// `/`: see `arith_spec`.
pub fn div<F: FloatOps>(env: &mut Env, l: LispObject, r: LispObject, floats: &F) -> (res: Result<ObjectReference, RuntimeError>)
    requires
        old(env)@.wf(),
    ensures
        final(env)@.wf(),
        old(env)@.grows_to(final(env)@),
        answers_agree(*floats, old(env)@, final(env)@),
        res matches Ok(x) ==> final(env)@.valid(x),
        forall|lq: Seq<FloatAnswer>| extends(lq, final(env)@.floats) ==> #[trigger] arith_spec(old(env)@, ArithOp::Div, l@, r@, lq) == (final(env)@, res_view(res)),
{
    arith(env, ArithOp::Div, l, r, floats)
}

/// `%`: see `mod_spec`.
pub fn modulo(env: &mut Env, l: LispObject, r: LispObject) -> (res: Result<ObjectReference, RuntimeError>)
    requires
        old(env)@.wf(),
    ensures
        final(env)@.wf(),
        old(env)@.grows_to(final(env)@),
        res matches Ok(x) ==> final(env)@.valid(x),
        (final(env)@, res_view(res)) == mod_spec(old(env)@, l@, r@),
{
    match (&l, &r) {
        (LispObject::Integer(x), LispObject::Integer(y)) => {
            if *y == 0 {
                return Err(RuntimeError::DivisionByZero);
            }
            let v = match x.checked_rem(*y) {
                Some(q) => q,
                None => 0,
            };
            Ok(env.create_object(LispObject::Integer(v)))
        },
        _ => Err(RuntimeError::TypeError { expected: Some(l.type_of()), actual: Some(r.type_of()) }),
    }
}

/// `=`: see `compare_spec`.
pub fn eq<F: FloatOps>(env: &mut Env, l: LispObject, r: LispObject, floats: &F) -> (res: Result<ObjectReference, RuntimeError>)
    requires
        old(env)@.wf(),
    ensures
        final(env)@.wf(),
        old(env)@.grows_to(final(env)@),
        answers_agree(*floats, old(env)@, final(env)@),
        res matches Ok(x) ==> final(env)@.valid(x),
        forall|lq: Seq<FloatAnswer>| extends(lq, final(env)@.floats) ==> #[trigger] compare_spec(old(env)@, CompareOp::Eq, l@, r@, lq) == (final(env)@, res_view(res)),
{
    compare(env, CompareOp::Eq, l, r, floats)
}

/// `<`: see `compare_spec`.
pub fn lt<F: FloatOps>(env: &mut Env, l: LispObject, r: LispObject, floats: &F) -> (res: Result<ObjectReference, RuntimeError>)
    requires
        old(env)@.wf(),
    ensures
        final(env)@.wf(),
        old(env)@.grows_to(final(env)@),
        answers_agree(*floats, old(env)@, final(env)@),
        res matches Ok(x) ==> final(env)@.valid(x),
        forall|lq: Seq<FloatAnswer>| extends(lq, final(env)@.floats) ==> #[trigger] compare_spec(old(env)@, CompareOp::Lt, l@, r@, lq) == (final(env)@, res_view(res)),
{
    compare(env, CompareOp::Lt, l, r, floats)
}

/// `>`: see `compare_spec`.
pub fn gt<F: FloatOps>(env: &mut Env, l: LispObject, r: LispObject, floats: &F) -> (res: Result<ObjectReference, RuntimeError>)
    requires
        old(env)@.wf(),
    ensures
        final(env)@.wf(),
        old(env)@.grows_to(final(env)@),
        answers_agree(*floats, old(env)@, final(env)@),
        res matches Ok(x) ==> final(env)@.valid(x),
        forall|lq: Seq<FloatAnswer>| extends(lq, final(env)@.floats) ==> #[trigger] compare_spec(old(env)@, CompareOp::Gt, l@, r@, lq) == (final(env)@, res_view(res)),
{
    compare(env, CompareOp::Gt, l, r, floats)
}

/// `<=`: see `compare_spec`.
pub fn le<F: FloatOps>(env: &mut Env, l: LispObject, r: LispObject, floats: &F) -> (res: Result<ObjectReference, RuntimeError>)
    requires
        old(env)@.wf(),
    ensures
        final(env)@.wf(),
        old(env)@.grows_to(final(env)@),
        answers_agree(*floats, old(env)@, final(env)@),
        res matches Ok(x) ==> final(env)@.valid(x),
        forall|lq: Seq<FloatAnswer>| extends(lq, final(env)@.floats) ==> #[trigger] compare_spec(old(env)@, CompareOp::Le, l@, r@, lq) == (final(env)@, res_view(res)),
{
    compare(env, CompareOp::Le, l, r, floats)
}

/// `>=`: see `compare_spec`.
pub fn ge<F: FloatOps>(env: &mut Env, l: LispObject, r: LispObject, floats: &F) -> (res: Result<ObjectReference, RuntimeError>)
    requires
        old(env)@.wf(),
    ensures
        final(env)@.wf(),
        old(env)@.grows_to(final(env)@),
        answers_agree(*floats, old(env)@, final(env)@),
        res matches Ok(x) ==> final(env)@.valid(x),
        forall|lq: Seq<FloatAnswer>| extends(lq, final(env)@.floats) ==> #[trigger] compare_spec(old(env)@, CompareOp::Ge, l@, r@, lq) == (final(env)@, res_view(res)),
{
    compare(env, CompareOp::Ge, l, r, floats)
}

/// `set`: see `set_spec`.
pub fn set(env: &mut Env, id: LispObject, val: LispObject) -> (res: Result<ObjectReference, RuntimeError>)
    requires
        old(env)@.wf(),
        refs_below(id@, old(env)@.objects.len()),
        refs_below(val@, old(env)@.objects.len()),
    ensures
        final(env)@.wf(),
        old(env)@.grows_to(final(env)@),
        res matches Ok(x) ==> final(env)@.valid(x),
        (final(env)@, res_view(res)) == set_spec(old(env)@, id@, val@),
{
    match &id {
        LispObject::Quote(q) => {
            let q = *q;
            let name = match env.get(q) {
                LispObject::Atom(n) => n.duplicate(),
                _ => {
                    return Err(RuntimeError::AssignmentToNonVariable);
                },
            };
            env.assign_var(&name, val);
            Ok(q)
        },
        _ => Err(RuntimeError::AssignmentToNonVariable),
    }
}

/// `declare`: see `declare_spec`.
pub fn declare(env: &mut Env, id: LispObject, val: LispObject) -> (res: Result<ObjectReference, RuntimeError>)
    requires
        old(env)@.wf(),
        refs_below(id@, old(env)@.objects.len()),
        refs_below(val@, old(env)@.objects.len()),
    ensures
        final(env)@.wf(),
        old(env)@.grows_to(final(env)@),
        res matches Ok(x) ==> final(env)@.valid(x),
        (final(env)@, res_view(res)) == declare_spec(old(env)@, id@, val@),
{
    match &id {
        LispObject::Quote(q) => {
            let q = *q;
            let name = match env.get(q) {
                LispObject::Atom(n) => n.duplicate(),
                _ => {
                    return Err(RuntimeError::AssignmentToNonVariable);
                },
            };
            let r = env.create_object(val);
            env.bind_top(name, r);
            Ok(q)
        },
        _ => Err(RuntimeError::AssignmentToNonVariable),
    }
}

/// Adds the text of a value to the output; the result is a new `nil`.
fn emit_value<F: FloatOps>(env: &mut Env, arg: LispObject, newline: bool, floats: &F) -> (res: Result<ObjectReference, RuntimeError>)
    requires
        old(env)@.wf(),
        refs_below(arg@, old(env)@.objects.len()),
    ensures
        final(env)@.wf(),
        old(env)@.grows_to(final(env)@),
        answers_agree(*floats, old(env)@, final(env)@),
        res matches Ok(x) ==> final(env)@.valid(x),
        forall|lq: Seq<FloatAnswer>| extends(lq, final(env)@.floats) ==> #[trigger] print_spec(old(env)@, arg@, newline, lq) == (final(env)@, res_view(res)),
{
    let ghost s = env@;
    match tree_within(env, &arg, TREE_DEPTH) {
        None => Err(RuntimeError::StackOverflow),
        Some(_) => {
            let (t, u) = obj_string(env, &arg, TREE_DEPTH, floats);
            env.note_texts(u);
            env.emit(t, newline);
            let r = env.nil();
            proof {
                let k = s.floats.len() as int;
                let n = u@.len() as int;
                assert forall|i: int| k <= i < env@.floats.len() implies crate::object::answered_by(*floats, #[trigger] env@.floats[i]) by {
                    assert(env@.floats[i] == FloatAnswer::Text(u@[i - k].0, u@[i - k].1));
                    assert(u@[i - k].1 == floats.text_of(u@[i - k].0)@);
                }
                assert forall|lq: Seq<FloatAnswer>| extends(lq, env@.floats) implies #[trigger] print_spec(s, arg@, newline, lq) == (env@, res_view(Ok::<ObjectReference, RuntimeError>(r))) by {
                    let ft = texts_from(lq, k);
                    let rest = texts_from(lq, k + n);
                    assert forall|j: int| 0 <= j < n implies lq[k + j] == FloatAnswer::Text(u@[j].0, u@[j].1) by {
                        assert(lq[k + j] == env@.floats[k + j]);
                    }
                    assert(ft =~= u@ + rest);
                    assert(obj_text(s, arg@, TREE_DEPTH as nat, u@ + rest) == Some((t@, rest)));
                    assert(lq.subrange(k, k + ft.len() - rest.len()) =~= u@.map_values(|p: (u64, Seq<char>)| FloatAnswer::Text(p.0, p.1)));
                }
            }
            Ok(r)
        },
    }
}

/// `print`: see `print_spec`; the value is followed by no line break.
pub fn print<F: FloatOps>(env: &mut Env, arg: LispObject, floats: &F) -> (res: Result<ObjectReference, RuntimeError>)
    requires
        old(env)@.wf(),
        refs_below(arg@, old(env)@.objects.len()),
    ensures
        final(env)@.wf(),
        old(env)@.grows_to(final(env)@),
        answers_agree(*floats, old(env)@, final(env)@),
        res matches Ok(x) ==> final(env)@.valid(x),
        forall|lq: Seq<FloatAnswer>| extends(lq, final(env)@.floats) ==> #[trigger] print_spec(old(env)@, arg@, false, lq) == (final(env)@, res_view(res)),
{
    emit_value(env, arg, false, floats)
}

/// `println`: see `print_spec`; the value is followed by a line break.
pub fn println<F: FloatOps>(env: &mut Env, arg: LispObject, floats: &F) -> (res: Result<ObjectReference, RuntimeError>)
    requires
        old(env)@.wf(),
        refs_below(arg@, old(env)@.objects.len()),
    ensures
        final(env)@.wf(),
        old(env)@.grows_to(final(env)@),
        answers_agree(*floats, old(env)@, final(env)@),
        res matches Ok(x) ==> final(env)@.valid(x),
        forall|lq: Seq<FloatAnswer>| extends(lq, final(env)@.floats) ==> #[trigger] print_spec(old(env)@, arg@, true, lq) == (final(env)@, res_view(res)),
{
    emit_value(env, arg, true, floats)
}

} // verus!
