//! Properties of single operations, each stated over what the operation's
//! contract says it gives: binding a call's arguments, resolving a function
//! body, reading string escapes, and the numeric builtins.
use vstd::prelude::*;

use crate::builtins::{arith_spec, compare_spec, truth};
use crate::float::{ArithOp, CompareOp, FloatOps};
use crate::forms::{binder_params, bound_names, resolve};
use crate::object::{answered_by, extends, EnvV, FloatAnswer, ObjV, ObjectReference};
use crate::parse::{p_object, Outcome};
use crate::semantics::{bind_lambda, bind_macro};
use crate::error::ErrV;
use crate::text::{nil_text, t_text};
use crate::tree::{ArgsV, TreeV, TypeV};

verus! {

/// In a call of a function with a variadic parameter, the leading parameters
/// take the first values and the trailing ones the last; the variadic one is
/// bound to a new array holding exactly the values in between, so that its
/// length is the number of values less the number of leading and trailing
/// parameters.
pub proof fn law_rest_parameter_holds_the_middle(
    s: EnvV,
    params: ArgsV<(Seq<char>, Option<TypeV>)>,
    vals: Seq<ObjectReference>,
)
    requires
        params.rest is Some,
        params.pre.len() + params.post.len() <= vals.len(),
        s.objects.len() < usize::MAX,
    ensures
        bind_lambda(s, params, vals) matches (s2, Ok(bs)) ==> {
            let np = params.pre.len() as int;
            let nq = params.post.len() as int;
            let n = vals.len() as int;
            &&& bs.len() == np + 1 + nq
            &&& forall|j: int| 0 <= j < np ==> #[trigger] bs[j] == (params.pre[j].0, vals[j])
            &&& bs[np].0 == params.rest->Some_0.0
            &&& s2.obj(bs[np].1) is Array
            &&& s2.obj(bs[np].1)->Array_0.len() == n - np - nq
            &&& forall|j: int| 0 <= j < n - np - nq ==> #[trigger] s2.obj(bs[np].1)->Array_0[j] == vals[np + j]
            &&& forall|j: int| 0 <= j < nq ==> #[trigger] bs[np + 1 + j] == (params.post[j].0, vals[n - nq + j])
        },
{
    let np = params.pre.len() as int;
    let nq = params.post.len() as int;
    let n = vals.len() as int;
    match bind_lambda(s, params, vals) {
        (s2, Ok(bs)) => {
            let rr = ObjectReference(s.objects.len() as usize);
            assert(s2 == s.with_object(ObjV::Array(vals.subrange(np, n - nq))));
            assert(bs[np] == (params.rest->Some_0.0, rr));
            assert(s2.obj(rr) == ObjV::Array(vals.subrange(np, n - nq)));
            assert forall|j: int| 0 <= j < nq implies #[trigger] bs[np + 1 + j] == (params.post[j].0, vals[n - nq + j]) by {
                assert(vals.skip(n - nq)[j] == vals[n - nq + j]);
            }
        },
        _ => {},
    }
}

/// Resolving the code of a function leaves the parameters of a `lambda` or
/// `macro` form nested in it alone: where the first expression of the nested
/// form's body is an atom that its parameter list declares, the resolved form
/// keeps that very atom there, whatever the innermost scope binds the name to.
pub proof fn law_nested_parameters_are_not_captured(
    s: EnvV,
    o: ObjectReference,
    ex: Seq<Seq<char>>,
    g: nat,
    h: ObjectReference,
    t: ObjectReference,
    p: ObjectReference,
    rest: ObjectReference,
    b: ObjectReference,
    tail: ObjectReference,
    x: Seq<char>,
)
    requires
        s.obj(o) == ObjV::Pair(h, t),
        binder_params(s, h, t) == Some((p, rest)),
        s.obj(rest) == ObjV::Pair(b, tail),
        s.obj(b) == ObjV::Atom(x),
        bound_names(s, p).contains(x),
    ensures
        resolve(s, o, ex, g) matches (s2, Some(r)) ==> s2.objects.len() < usize::MAX ==> (s2.obj(r) matches ObjV::Pair(h2, q) && s2.obj(q) matches ObjV::Pair(
            p2,
            r2,
        ) && s2.obj(r2) matches ObjV::Pair(b2, _) && b2 == b),
{
    if g >= 3 {
        let ex2 = ex + bound_names(s, p);
        assert(ex2.contains(x)) by {
            let k = choose|k: int| 0 <= k < bound_names(s, p).len() && bound_names(s, p)[k] == x;
            assert(ex2[ex.len() + k] == x);
        }
        let gg = (g - 1) as nat;
        assert(s.obj(h) is Atom);
        assert(resolve(s, h, ex, gg).0 == s);
        let (s1, rh) = resolve(s, h, ex, gg);
        assert(resolve(s, b, ex2, (gg - 1) as nat) == (s, Some(b)));
        let (s2, rt) = resolve_tail_of(s, tail, ex2, (gg - 1) as nat);
        match rt {
            Some(t2) => {
                let sa = s2.with_object(ObjV::Pair(b, t2));
                let r2 = ObjectReference(s2.objects.len() as usize);
                assert(crate::forms::resolve_tail(s, rest, ex2, gg) == (sa, Some(r2)));
                let s3 = sa.with_object(ObjV::Pair(p, r2));
                let q = ObjectReference(sa.objects.len() as usize);
                let s4 = s3.with_object(ObjV::Pair(rh->Some_0, q));
                assert(resolve(s, o, ex, g) == (s4, Some(ObjectReference(s3.objects.len() as usize))));
                lemma_resolve_tail_grows(s, tail, ex2, (gg - 1) as nat);
                if s4.objects.len() < usize::MAX {
                    assert(s4.obj(ObjectReference(s3.objects.len() as usize)) == ObjV::Pair(rh->Some_0, q));
                    assert(s4.obj(q) == ObjV::Pair(p, r2));
                    assert(s4.obj(r2) == ObjV::Pair(b, t2));
                }
            },
            None => {
                assert(crate::forms::resolve_tail(s, rest, ex2, gg).1 is None);
                assert(resolve(s, o, ex, g).1 is None);
            },
        }
    } else if g == 2 {
        let ex2 = ex + bound_names(s, p);
        assert(resolve(s, b, ex2, 0).1 is None);
        assert(crate::forms::resolve_tail(s, rest, ex2, 1).1 is None);
        assert(resolve(s, h, ex, 1).0 == s);
        assert(resolve(s, o, ex, 2).1 is None);
    } else if g == 1 {
        assert(resolve(s, h, ex, 0).1 is None);
        assert(resolve(s, o, ex, 1).1 is None);
    }
}

spec fn resolve_tail_of(s: EnvV, o: ObjectReference, ex: Seq<Seq<char>>, g: nat) -> (EnvV, Option<ObjectReference>) {
    crate::forms::resolve_tail(s, o, ex, g)
}

proof fn lemma_resolve_tail_grows(s: EnvV, o: ObjectReference, ex: Seq<Seq<char>>, g: nat)
    ensures
        s.objects.len() <= crate::forms::resolve_tail(s, o, ex, g).0.objects.len(),
    decreases g, 0int,
{
    if g > 0 {
        match s.obj(o) {
            ObjV::Pair(h, t) => {
                lemma_resolve_grows(s, h, ex, (g - 1) as nat);
                let s1 = resolve(s, h, ex, (g - 1) as nat).0;
                lemma_resolve_tail_grows(s1, t, ex, (g - 1) as nat);
            },
            _ => {},
        }
    }
}

proof fn lemma_resolve_grows(s: EnvV, o: ObjectReference, ex: Seq<Seq<char>>, g: nat)
    ensures
        s.objects.len() <= resolve(s, o, ex, g).0.objects.len(),
    decreases g, 0int,
{
    if g > 0 {
        match s.obj(o) {
            ObjV::Pair(h, t) => {
                lemma_resolve_grows(s, h, ex, (g - 1) as nat);
                let s1 = resolve(s, h, ex, (g - 1) as nat).0;
                match binder_params(s, h, t) {
                    Some((p, rest)) => lemma_resolve_tail_grows(s1, rest, ex + bound_names(s, p), (g - 1) as nat),
                    None => lemma_resolve_tail_grows(s1, t, ex, (g - 1) as nat),
                }
            },
            ObjV::Array(xs) => lemma_resolve_elems_grows(s, xs, 0, Seq::empty(), ex, (g - 1) as nat),
            _ => {},
        }
    }
}

proof fn lemma_resolve_elems_grows(
    s: EnvV,
    xs: Seq<ObjectReference>,
    i: int,
    acc: Seq<ObjectReference>,
    ex: Seq<Seq<char>>,
    g: nat,
)
    ensures
        s.objects.len() <= crate::forms::resolve_elems(s, xs, i, acc, ex, g).0.objects.len(),
    decreases g, xs.len() - i,
{
    if 0 <= i < xs.len() {
        lemma_resolve_grows(s, xs[i], ex, g);
        let (s1, r) = resolve(s, xs[i], ex, g);
        match r {
            Some(y) => lemma_resolve_elems_grows(s1, xs, i + 1, acc.push(y), ex, g),
            None => {},
        }
    }
}

/// The control character that an escape letter of a string literal stands for.
pub open spec fn escape_table(e: char) -> Option<char> {
    if e == 'n' {
        Some('\n')
    } else if e == 't' {
        Some('\t')
    } else if e == 'r' {
        Some('\r')
    } else if e == '0' {
        Some('\0')
    } else if e == 'a' {
        Some('\x07')
    } else if e == 'b' {
        Some('\x08')
    } else if e == 'f' {
        Some('\x0c')
    } else if e == 'v' {
        Some('\x0b')
    } else {
        None
    }
}

/// A string literal whose body is a backslash and an escape letter reads as
/// the one-character string of the control character that the letter stands
/// for: `\n` a line feed, `\t` a tab, `\r` a carriage return, `\0` a null,
/// `\a` a bell, `\b` a backspace, `\f` a form feed and `\v` a vertical tab.
pub proof fn law_string_escapes<F: FloatOps>(s: Seq<char>, j: int, e: char, floats: F)
    requires
        0 <= j,
        j + 4 <= s.len(),
        s[j] == '"',
        s[j + 1] == '\\',
        s[j + 2] == e,
        s[j + 3] == '"',
        escape_table(e) is Some,
    ensures
        p_object(s, j, floats) == Outcome::Done(j + 4, TreeV::String(seq![escape_table(e)->Some_0])),
{
    let c = escape_table(e)->Some_0;
    assert(crate::parse::skip_space(s, j) == j);
    assert(crate::parse::digits_end(s, j) == j);
    assert(crate::parse::unescape(e) == c);
    assert(Seq::<char>::empty().push(c) =~= seq![c]);
    assert(crate::parse::scan_string(s, j + 3, seq![c]) == Some((j + 4, seq![c])));
    assert(crate::parse::scan_string(s, j + 1, Seq::empty()) == crate::parse::scan_string(s, j + 3, Seq::<char>::empty().push(c)));
    assert(crate::parse::p_string(s, j) == Outcome::Done(j + 4, TreeV::String(seq![c])));
}

/// `(op x y)` on two floats gives a new float, and asks the caller's float
/// operations for `x op y`, the first argument on the left: whatever answers
/// follow, where the answer recorded for the call is the one that `floats`
/// names, the result holds `floats.arith_of(op, x, y)`.
pub proof fn law_float_arithmetic_left_first<F: FloatOps>(
    s: EnvV,
    op: ArithOp,
    x: u64,
    y: u64,
    lq: Seq<FloatAnswer>,
    floats: F,
)
    requires
        s.objects.len() < usize::MAX,
    ensures
        ({
            let (s2, r) = arith_spec(s, op, ObjV::Float(x), ObjV::Float(y), lq);
            extends(lq, s2.floats) && answered_by(floats, s2.floats[s.floats.len() as int])
                ==> (r matches Ok(o) && s2.obj(o) == ObjV::Float(floats.arith_of(op, x, y)))
        }),
{
}

/// The comparisons of two integers give `t` exactly when the comparison
/// holds, and `nil` otherwise: `(= a b)` when `a == b`, `(< a b)` when
/// `a < b`, `(> a b)` when `a > b`, `(<= a b)` when `a <= b` and `(>= a b)`
/// when `a >= b`, so that `(>= a a)` is `t`.
pub proof fn law_integer_comparisons(s: EnvV, op: CompareOp, a: i32, b: i32, lq: Seq<FloatAnswer>)
    requires
        s.objects.len() < usize::MAX,
    ensures
        ({
            let (s2, r) = compare_spec(s, op, ObjV::Integer(a), ObjV::Integer(b), lq);
            let holds = match op {
                CompareOp::Eq => a == b,
                CompareOp::Lt => a < b,
                CompareOp::Gt => a > b,
                CompareOp::Le => a <= b,
                CompareOp::Ge => a >= b,
            };
            r matches Ok(o) && s2.obj(o) == ObjV::Atom(if holds { t_text() } else { nil_text() })
        }),
{
}

/// `(>= a b)` gives `t` just when `(< a b)` gives `nil`, and `(<= a b)` just
/// when `(> a b)` gives `nil`; `(>= a b)` gives what `(<= b a)` gives.
pub proof fn law_integer_comparisons_agree(s: EnvV, a: i32, b: i32, lq: Seq<FloatAnswer>)
    requires
        s.objects.len() < usize::MAX,
    ensures
        compare_spec(s, CompareOp::Ge, ObjV::Integer(a), ObjV::Integer(b), lq).0 != compare_spec(
            s,
            CompareOp::Lt,
            ObjV::Integer(a),
            ObjV::Integer(b),
            lq,
        ).0,
        compare_spec(s, CompareOp::Le, ObjV::Integer(a), ObjV::Integer(b), lq).0 != compare_spec(
            s,
            CompareOp::Gt,
            ObjV::Integer(a),
            ObjV::Integer(b),
            lq,
        ).0,
        compare_spec(s, CompareOp::Ge, ObjV::Integer(a), ObjV::Integer(b), lq) == compare_spec(
            s,
            CompareOp::Le,
            ObjV::Integer(b),
            ObjV::Integer(a),
            lq,
        ),
{
    let k = s.objects.len() as int;
    let ge = compare_spec(s, CompareOp::Ge, ObjV::Integer(a), ObjV::Integer(b), lq).0;
    let lt = compare_spec(s, CompareOp::Lt, ObjV::Integer(a), ObjV::Integer(b), lq).0;
    let le = compare_spec(s, CompareOp::Le, ObjV::Integer(a), ObjV::Integer(b), lq).0;
    let gt = compare_spec(s, CompareOp::Gt, ObjV::Integer(a), ObjV::Integer(b), lq).0;
    assert(t_text() != nil_text()) by {
        assert(t_text().len() != nil_text().len());
    }
    assert(ge.objects[k] != lt.objects[k]);
    assert(le.objects[k] != gt.objects[k]);
}

/// `(op x y)` on two floats gives `t` or `nil` as the caller's float
/// operations answer whether `x op y` holds, the first argument on the left:
/// where the answer recorded for the call is the one that `floats` names, the
/// result is `t` exactly when `floats.compare_of(op, x, y)`.
pub proof fn law_float_comparison_left_first<F: FloatOps>(
    s: EnvV,
    op: CompareOp,
    x: u64,
    y: u64,
    lq: Seq<FloatAnswer>,
    floats: F,
)
    requires
        s.objects.len() < usize::MAX,
    ensures
        ({
            let (s2, r) = compare_spec(s, op, ObjV::Float(x), ObjV::Float(y), lq);
            extends(lq, s2.floats) && answered_by(floats, s2.floats[s.floats.len() as int])
                ==> (r matches Ok(o) && s2.obj(o) == truth(floats.compare_of(op, x, y)))
        }),
{
}

/// In a call of a macro with a variadic parameter, the leading names take the
/// first arguments and the trailing ones the last; the variadic one is bound
/// to a new array holding exactly the arguments in between.
pub proof fn law_macro_rest_holds_the_middle(s: EnvV, names: ArgsV<Seq<char>>, args: Seq<ObjectReference>)
    requires
        names.rest is Some,
        names.pre.len() + names.post.len() <= args.len(),
        s.objects.len() < usize::MAX,
    ensures
        ({
            let (s2, bs) = bind_macro(s, names, args);
            let np = names.pre.len() as int;
            let nq = names.post.len() as int;
            let n = args.len() as int;
            &&& bs.len() == np + 1 + nq
            &&& forall|j: int| 0 <= j < np ==> #[trigger] bs[j] == (names.pre[j], args[j])
            &&& bs[np].0 == names.rest->Some_0
            &&& s2.obj(bs[np].1) == ObjV::Array(args.subrange(np, n - nq))
            &&& s2.obj(bs[np].1)->Array_0.len() == n - np - nq
            &&& forall|j: int| 0 <= j < nq ==> #[trigger] bs[np + 1 + j] == (names.post[j], args[n - nq + j])
        }),
{
    let np = names.pre.len() as int;
    let nq = names.post.len() as int;
    let n = args.len() as int;
    let (s2, bs) = bind_macro(s, names, args);
    assert forall|j: int| 0 <= j < nq implies #[trigger] bs[np + 1 + j] == (names.post[j], args[n - nq + j]) by {
        assert(args.skip(n - nq)[j] == args[n - nq + j]);
    }
}

/// `+`, `-` and `*` of two integers give the exact sum, difference and
/// product wherever it fits in an `i32`; `/` by zero is an error, and `/` of
/// a non-negative integer by a positive one gives the quotient rounded down.
pub proof fn law_integer_arithmetic(s: EnvV, op: ArithOp, a: i32, b: i32, lq: Seq<FloatAnswer>)
    requires
        s.objects.len() < usize::MAX,
    ensures
        ({
            let (s2, r) = arith_spec(s, op, ObjV::Integer(a), ObjV::Integer(b), lq);
            let exact: int = match op {
                ArithOp::Add => a + b,
                ArithOp::Sub => a - b,
                ArithOp::Mul => a * b,
                ArithOp::Div => if a >= 0 && b > 0 { a / b } else { 0 },
            };
            &&& op == ArithOp::Div && b == 0 ==> r == Err::<ObjectReference, ErrV>(ErrV::DivisionByZero)
            &&& (op != ArithOp::Div || (a >= 0 && b > 0)) && i32::MIN <= exact <= i32::MAX
                ==> (r matches Ok(o) && s2.obj(o) == ObjV::Integer(exact as i32))
        }),
{
}

} // verus!
