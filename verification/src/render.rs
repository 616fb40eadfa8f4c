//! Writing objects of an environment out as text, their references followed.
//!
//! This is how values are printed. It differs from the text of their trees in
//! two places: a builtin is written `Builtin`, and the expressions of a
//! function's body are written one right after another.
//!
//! A float is written as the caller's `FloatOps` writes it. In the texts
//! below, the floats take their texts in turn from a sequence `ft`, and each
//! text also gives what is left of it.
use vstd::prelude::*;

use crate::convert::{obj_tree, ref_trees};
use crate::float::FloatOps;
use crate::object::{binding_view, frame_view, refs_below, Binding, Env, EnvV, Frame, LispObject, ObjV, ObjectReference};
use crate::show::{
    bracketed, debug_quoted, debug_text, joined, name_strings, names_text, string_views, take_text, ask_text, lemma_texts_by_add, texts_by,
    typed_param_strings, typed_params_text, write_array, write_joined,
};
use crate::text::{int_text, lemma_nil_literal, nat_text, nil_text, push_char, push_int, push_nat, push_str};
use crate::error::{opt_type_debug_text, write_opt_type_debug};
use crate::small::{typed_param_view, Names, TypedParam, TypedParams};
use crate::tree::{opt_type_view, type_text, ArgsV, LambdaArgs, LispType, MacroArgs, TypeV};

verus! {

/// Texts written one right after another.
pub open spec fn concat(parts: Seq<Seq<char>>) -> Seq<char>
    decreases parts.len(),
{
    if parts.len() == 0 {
        Seq::empty()
    } else {
        concat(parts.drop_last()) + parts.last()
    }
}

/// The text of an object, its references followed to a depth of at most `f`
/// (`None` where that does not reach every leaf), and what is left of `ft`.
///
/// A list is written in parentheses (an improper one with ` . ` before its
/// last tail), an array in square brackets, a string in its debug form, a
/// quote with its sign in front, a builtin as `Builtin`, a function as
/// `(λ [params] body)` with the expressions of its body one right after
/// another, a macro as `(macro [names] code)`.
pub open spec fn obj_text(s: EnvV, o: ObjV, f: nat, ft: Seq<(u64, Seq<char>)>) -> Option<(Seq<char>, Seq<(u64, Seq<char>)>)>
    decreases f, 0int,
{
    match o {
        ObjV::Atom(n) => Some((n, ft)),
        ObjV::Integer(i) => Some((int_text(i as int), ft)),
        ObjV::Float(b) => Some(take_text(ft, b)),
        ObjV::String(x) => Some((debug_text(x), ft)),
        ObjV::Dyadic(_) | ObjV::Monadic(_) | ObjV::Vararg(_) => Some(("Builtin"@, ft)),
        ObjV::Pair(a, b) => if f == 0 {
            None
        } else {
            match obj_text(s, s.obj(a), (f - 1) as nat, ft) {
                Some((ta, ft1)) => match cdr_obj_text(s, s.obj(b), (f - 1) as nat, ft1) {
                    Some((tb, ft2)) => Some((seq!['('] + ta + tb + seq![')'], ft2)),
                    None => None,
                },
                None => None,
            }
        },
        ObjV::Array(xs) => if f == 0 {
            None
        } else {
            match refs_text(s, xs, 0, Seq::empty(), (f - 1) as nat, ft) {
                Some((ts, ft1)) => Some((bracketed(ts), ft1)),
                None => None,
            }
        },
        ObjV::Lambda { params, ret_ty, body } => if f == 0 {
            None
        } else {
            match refs_text(s, body, 0, Seq::empty(), (f - 1) as nat, ft) {
                Some((ts, ft1)) => Some((
                    "(λ "@ + bracketed(typed_params_text(params)) + match ret_ty {
                        Some(r) => " -> "@ + type_text(r),
                        None => Seq::empty(),
                    } + seq![' '] + concat(ts) + seq![')'],
                    ft1,
                )),
                None => None,
            }
        },
        ObjV::Macro { names, code } => if f == 0 {
            None
        } else {
            match refs_text(s, code, 0, Seq::empty(), (f - 1) as nat, ft) {
                Some((ts, ft1)) => Some((
                    "(macro "@ + bracketed(names_text(names)) + seq![' '] + joined(ts) + seq![')'],
                    ft1,
                )),
                None => None,
            }
        },
        ObjV::Quote(r) => if f == 0 {
            None
        } else {
            match obj_text(s, s.obj(r), (f - 1) as nat, ft) {
                Some((t, ft1)) => Some((seq!['\''] + t, ft1)),
                None => None,
            }
        },
        ObjV::Quasiquote(r) => if f == 0 {
            None
        } else {
            match obj_text(s, s.obj(r), (f - 1) as nat, ft) {
                Some((t, ft1)) => Some((seq!['`'] + t, ft1)),
                None => None,
            }
        },
        ObjV::Unquote(r) => if f == 0 {
            None
        } else {
            match obj_text(s, s.obj(r), (f - 1) as nat, ft) {
                Some((t, ft1)) => Some((seq![','] + t, ft1)),
                None => None,
            }
        },
    }
}

/// The rest of a list after its first item, `o` being its tail: nothing for
/// `nil`, each further item after a space, and ` . ` before a last tail that
/// is not `nil`.
pub open spec fn cdr_obj_text(s: EnvV, o: ObjV, f: nat, ft: Seq<(u64, Seq<char>)>) -> Option<(Seq<char>, Seq<(u64, Seq<char>)>)>
    decreases f, 1int,
{
    match o {
        ObjV::Atom(n) => if n == nil_text() {
            Some((Seq::empty(), ft))
        } else {
            Some((" . "@ + n, ft))
        },
        ObjV::Pair(a, b) => if f == 0 {
            None
        } else {
            match obj_text(s, s.obj(a), (f - 1) as nat, ft) {
                Some((ta, ft1)) => match cdr_obj_text(s, s.obj(b), (f - 1) as nat, ft1) {
                    Some((tb, ft2)) => Some((seq![' '] + ta + tb, ft2)),
                    None => None,
                },
                None => None,
            }
        },
        _ => match obj_text(s, o, f, ft) {
            Some((t, ft1)) => Some((" . "@ + t, ft1)),
            None => None,
        },
    }
}

/// The texts of the objects at `xs[i..]`, after those in `acc`, and what is left of `ft`.
pub open spec fn refs_text(
    s: EnvV,
    xs: Seq<ObjectReference>,
    i: int,
    acc: Seq<Seq<char>>,
    g: nat,
    ft: Seq<(u64, Seq<char>)>,
) -> Option<(Seq<Seq<char>>, Seq<(u64, Seq<char>)>)>
    decreases g, xs.len() - i,
{
    if i < 0 || i >= xs.len() {
        Some((acc, ft))
    } else {
        match obj_text(s, s.obj(xs[i]), g, ft) {
            Some((t, ft1)) => refs_text(s, xs, i + 1, acc.push(t), g, ft1),
            None => None,
        }
    }
}

/// Where the trees of `xs[i..]` reach their leaves within `g`, so does each one's.
proof fn lemma_ref_trees_each(s: EnvV, xs: Seq<ObjectReference>, i: int, acc: Seq<crate::tree::TreeV>, g: nat)
    requires
        0 <= i,
        ref_trees(s, xs, i, acc, g) is Some,
    ensures
        forall|j: int| i <= j < xs.len() ==> (#[trigger] obj_tree(s, s.obj(xs[j]), g)) is Some,
    decreases xs.len() - i,
{
    if i < xs.len() {
        let t = obj_tree(s, s.obj(xs[i]), g).unwrap();
        lemma_ref_trees_each(s, xs, i + 1, acc.push(t), g);
    }
}

/// Appends texts one right after another.
fn write_concat(out: &mut String, parts: &Vec<String>)
    ensures
        final(out)@ == old(out)@ + concat(string_views(parts@)),
{
    let ghost start = out@;
    let mut i: usize = 0;
    while i < parts.len()
        invariant
            i <= parts.len(),
            out@ == start + concat(string_views(parts@).take(i as int)),
        decreases parts.len() - i,
    {
        let ghost sv = string_views(parts@);
        proof {
            assert(sv.take(i + 1).drop_last() =~= sv.take(i as int));
            assert(sv.take(i + 1).last() == parts@[i as int]@);
        }
        push_str(out, parts[i].as_str());
        assert(out@ =~= start + concat(sv.take(i + 1)));
        i = i + 1;
    }
    assert(string_views(parts@).take(parts.len() as int) =~= string_views(parts@));
}

/// The text of an object, followed to a depth of at most `f`, and (as a
/// ghost) the texts that its floats were written as, in order.
#[verifier::rlimit(40)]
pub(crate) fn obj_string<F: FloatOps>(env: &Env, o: &LispObject, f: u64, floats: &F) -> (r: (String, Ghost<Seq<(u64, Seq<char>)>>))
    requires
        env@.wf(),
        refs_below(o@, env@.objects.len()),
        obj_tree(env@, o@, f as nat) is Some,
    ensures
        forall|rest: Seq<(u64, Seq<char>)>| #[trigger] obj_text(env@, o@, f as nat, r.1@ + rest) == Some((r.0@, rest)),
        texts_by(*floats, r.1@),
    decreases f, 1int,
{
    let ghost s = env@;
    let ghost none = Seq::<(u64, Seq<char>)>::empty();
    let mut t = String::new();
    match o {
        LispObject::Atom(n) => {
            push_str(&mut t, n.as_str());
        },
        LispObject::Integer(i) => {
            push_int(&mut t, *i);
        },
        LispObject::Float(b) => {
            let (x, q) = ask_text(floats, *b);
            let ghost u = seq![q@];
            proof {
                assert(u[0] == q@);
                assert forall|rest: Seq<(u64, Seq<char>)>| #[trigger] obj_text(s, o@, f as nat, u + rest) == Some((x@, rest)) by {
                    assert((u + rest)[0] == q@);
                    assert((u + rest).subrange(1, (u + rest).len() as int) =~= rest);
                }
            }
            return (x, Ghost(u));
        },
        LispObject::String(x) => {
            let q = debug_quoted(x.as_str());
            push_str(&mut t, q.as_str());
        },
        LispObject::BuiltinDyadic(_) | LispObject::BuiltinMonadic(_) | LispObject::BuiltinVarargMacro(_) => {
            push_str(&mut t, "Builtin");
        },
        LispObject::Pair(a, b) => {
            proof {
                crate::object::lemma_obj_refs(s, *a);
                crate::object::lemma_obj_refs(s, *b);
            }
            let (ta, ua) = obj_string(env, env.get(*a), f - 1, floats);
            let (tb, ub) = cdr_string(env, env.get(*b), f - 1, floats);
            push_char(&mut t, '(');
            push_str(&mut t, ta.as_str());
            push_str(&mut t, tb.as_str());
            push_char(&mut t, ')');
            let ghost u = ua@ + ub@;
            proof {
                lemma_texts_by_add(*floats, ua@, ub@);
                assert forall|rest: Seq<(u64, Seq<char>)>| #[trigger] obj_text(s, o@, f as nat, u + rest) == Some((t@, rest)) by {
                    assert(u + rest =~= ua@ + (ub@ + rest));
                    assert(obj_text(s, s.obj(*a), (f - 1) as nat, ua@ + (ub@ + rest)) == Some((ta@, ub@ + rest)));
                    assert(cdr_obj_text(s, s.obj(*b), (f - 1) as nat, ub@ + rest) == Some((tb@, rest)));
                    assert(t@ =~= seq!['('] + ta@ + tb@ + seq![')']);
                }
            }
            return (t, Ghost(u));
        },
        LispObject::Array(xs) => {
            let (ts, u) = refs_strings(env, xs, f, floats);
            write_array(&mut t, &ts);
            proof {
                assert forall|rest: Seq<(u64, Seq<char>)>| #[trigger] obj_text(s, o@, f as nat, u@ + rest) == Some((t@, rest)) by {
                    assert(refs_text(s, xs@, 0, Seq::empty(), (f - 1) as nat, u@ + rest) == Some((string_views(ts@), rest)));
                    assert(t@ =~= bracketed(string_views(ts@)));
                }
            }
            return (t, u);
        },
        LispObject::Lambda { params, ret_ty, body } => {
            let ps = typed_param_strings(params);
            let (ts, u) = refs_strings(env, body, f, floats);
            push_str(&mut t, "(λ ");
            write_array(&mut t, &ps);
            match ret_ty {
                Some(rt) => {
                    push_str(&mut t, " -> ");
                    rt.write_to(&mut t);
                },
                None => {},
            }
            push_char(&mut t, ' ');
            write_concat(&mut t, &ts);
            push_char(&mut t, ')');
            proof {
                assert forall|rest: Seq<(u64, Seq<char>)>| #[trigger] obj_text(s, o@, f as nat, u@ + rest) == Some((t@, rest)) by {
                    assert(refs_text(s, body@, 0, Seq::empty(), (f - 1) as nat, u@ + rest) == Some((string_views(ts@), rest)));
                }
                assert(t@ =~= obj_text(s, o@, f as nat, u@).unwrap().0) by {
                    assert(u@ + Seq::<(u64, Seq<char>)>::empty() =~= u@);
                }
            }
            return (t, u);
        },
        LispObject::Macro { params, body } => {
            let ps = name_strings(params);
            let (ts, u) = refs_strings(env, body, f, floats);
            push_str(&mut t, "(macro ");
            write_array(&mut t, &ps);
            push_char(&mut t, ' ');
            write_joined(&mut t, &ts);
            push_char(&mut t, ')');
            proof {
                assert forall|rest: Seq<(u64, Seq<char>)>| #[trigger] obj_text(s, o@, f as nat, u@ + rest) == Some((t@, rest)) by {
                    assert(refs_text(s, body@, 0, Seq::empty(), (f - 1) as nat, u@ + rest) == Some((string_views(ts@), rest)));
                    assert(t@ =~= "(macro "@ + bracketed(names_text(params@)) + seq![' '] + joined(string_views(ts@)) + seq![')']);
                }
            }
            return (t, u);
        },
        LispObject::Quote(a) | LispObject::Quasiquote(a) | LispObject::Unquote(a) => {
            proof {
                crate::object::lemma_obj_refs(s, *a);
            }
            let (ta, ua) = obj_string(env, env.get(*a), f - 1, floats);
            let c = match o {
                LispObject::Quote(_) => '\'',
                LispObject::Quasiquote(_) => '`',
                _ => ',',
            };
            push_char(&mut t, c);
            push_str(&mut t, ta.as_str());
            proof {
                assert forall|rest: Seq<(u64, Seq<char>)>| #[trigger] obj_text(s, o@, f as nat, ua@ + rest) == Some((t@, rest)) by {
                    assert(obj_text(s, s.obj(*a), (f - 1) as nat, ua@ + rest) == Some((ta@, rest)));
                    assert(t@ =~= seq![c] + ta@);
                }
            }
            return (t, ua);
        },
    }
    proof {
        assert forall|rest: Seq<(u64, Seq<char>)>| #[trigger] obj_text(s, o@, f as nat, none + rest) == Some((t@, rest)) by {
            assert(none + rest =~= rest);
        }
    }
    (t, Ghost(none))
}

/// The text of the rest of a list whose tail is `o`; see `cdr_obj_text`.
#[verifier::rlimit(40)]
fn cdr_string<F: FloatOps>(env: &Env, o: &LispObject, f: u64, floats: &F) -> (r: (String, Ghost<Seq<(u64, Seq<char>)>>))
    requires
        env@.wf(),
        refs_below(o@, env@.objects.len()),
        obj_tree(env@, o@, f as nat) is Some,
    ensures
        forall|rest: Seq<(u64, Seq<char>)>| #[trigger] cdr_obj_text(env@, o@, f as nat, r.1@ + rest) == Some((r.0@, rest)),
        texts_by(*floats, r.1@),
    decreases f, 2int,
{
    let ghost s = env@;
    let ghost none = Seq::<(u64, Seq<char>)>::empty();
    proof {
        lemma_nil_literal();
    }
    let mut t = String::new();
    match o {
        LispObject::Atom(n) => {
            if !n.is("nil") {
                push_str(&mut t, " . ");
                push_str(&mut t, n.as_str());
            }
            proof {
                assert forall|rest: Seq<(u64, Seq<char>)>| #[trigger] cdr_obj_text(s, o@, f as nat, none + rest) == Some((t@, rest)) by {
                    assert(none + rest =~= rest);
                    assert(t@ =~= cdr_obj_text(s, o@, f as nat, rest).unwrap().0);
                }
            }
            (t, Ghost(none))
        },
        LispObject::Pair(a, b) => {
            proof {
                crate::object::lemma_obj_refs(s, *a);
                crate::object::lemma_obj_refs(s, *b);
            }
            let (ta, ua) = obj_string(env, env.get(*a), f - 1, floats);
            let (tb, ub) = cdr_string(env, env.get(*b), f - 1, floats);
            push_char(&mut t, ' ');
            push_str(&mut t, ta.as_str());
            push_str(&mut t, tb.as_str());
            let ghost u = ua@ + ub@;
            proof {
                lemma_texts_by_add(*floats, ua@, ub@);
                assert forall|rest: Seq<(u64, Seq<char>)>| #[trigger] cdr_obj_text(s, o@, f as nat, u + rest) == Some((t@, rest)) by {
                    assert(u + rest =~= ua@ + (ub@ + rest));
                    assert(obj_text(s, s.obj(*a), (f - 1) as nat, ua@ + (ub@ + rest)) == Some((ta@, ub@ + rest)));
                    assert(cdr_obj_text(s, s.obj(*b), (f - 1) as nat, ub@ + rest) == Some((tb@, rest)));
                    assert(t@ =~= seq![' '] + ta@ + tb@);
                }
            }
            (t, Ghost(u))
        },
        _ => {
            let (x, u) = obj_string(env, o, f, floats);
            push_str(&mut t, " . ");
            push_str(&mut t, x.as_str());
            proof {
                assert forall|rest: Seq<(u64, Seq<char>)>| #[trigger] cdr_obj_text(s, o@, f as nat, u@ + rest) == Some((t@, rest)) by {
                    assert(obj_text(s, o@, f as nat, u@ + rest) == Some((x@, rest)));
                    assert(t@ =~= " . "@ + x@);
                }
            }
            (t, u)
        },
    }
}

/// The texts of the objects at `xs`, each followed to a depth of at most `f - 1`.
fn refs_strings<F: FloatOps>(env: &Env, xs: &Vec<ObjectReference>, f: u64, floats: &F) -> (r: (Vec<String>, Ghost<Seq<(u64, Seq<char>)>>))
    requires
        env@.wf(),
        forall|i: int| 0 <= i < xs@.len() ==> env@.valid(#[trigger] xs@[i]),
        f > 0,
        ref_trees(env@, xs@, 0, Seq::empty(), (f - 1) as nat) is Some,
    ensures
        forall|rest: Seq<(u64, Seq<char>)>| #[trigger] refs_text(env@, xs@, 0, Seq::empty(), (f - 1) as nat, r.1@ + rest) == Some((string_views(r.0@), rest)),
        texts_by(*floats, r.1@),
    decreases f, 0int,
{
    let ghost s = env@;
    let ghost g = (f - 1) as nat;
    proof {
        lemma_ref_trees_each(s, xs@, 0, Seq::empty(), g);
    }
    let mut parts: Vec<String> = Vec::new();
    let ghost mut u = Seq::<(u64, Seq<char>)>::empty();
    proof {
        assert forall|rest: Seq<(u64, Seq<char>)>| #[trigger] refs_text(s, xs@, 0, Seq::empty(), g, u + rest) == refs_text(s, xs@, 0, string_views(parts@), g, rest) by {
            assert(u + rest =~= rest);
            assert(string_views(parts@) =~= Seq::<Seq<char>>::empty());
        }
    }
    let mut i: usize = 0;
    while i < xs.len()
        invariant
            i <= xs@.len(),
            env@ == s,
            s.wf(),
            f > 0,
            g == f - 1,
            forall|j: int| 0 <= j < xs@.len() ==> s.valid(#[trigger] xs@[j]),
            forall|j: int| 0 <= j < xs@.len() ==> (#[trigger] obj_tree(s, s.obj(xs@[j]), g)) is Some,
            forall|rest: Seq<(u64, Seq<char>)>| #[trigger] refs_text(s, xs@, 0, Seq::empty(), g, u + rest) == refs_text(s, xs@, i as int, string_views(parts@), g, rest),
            texts_by(*floats, u),
        decreases xs@.len() - i,
    {
        proof {
            crate::object::lemma_obj_refs(s, xs@[i as int]);
            assert(obj_tree(s, s.obj(xs@[i as int]), g) is Some);
        }
        let (t, ui) = obj_string(env, env.get(xs[i]), f - 1, floats);
        let ghost before = parts@;
        let ghost u0 = u;
        parts.push(t);
        proof {
            u = u0 + ui@;
            lemma_texts_by_add(*floats, u0, ui@);
            assert(string_views(parts@) =~= string_views(before).push(t@));
            assert forall|rest: Seq<(u64, Seq<char>)>| #[trigger] refs_text(s, xs@, 0, Seq::empty(), g, u + rest) == refs_text(s, xs@, i + 1, string_views(parts@), g, rest) by {
                assert(u + rest =~= u0 + (ui@ + rest));
                assert(refs_text(s, xs@, 0, Seq::empty(), g, u0 + (ui@ + rest)) == refs_text(s, xs@, i as int, string_views(before), g, ui@ + rest));
                assert(obj_text(s, s.obj(xs@[i as int]), g, ui@ + rest) == Some((t@, rest)));
            }
        }
        i = i + 1;
    }
    (parts, Ghost(u))
}

/// Items a comma and a space apart.
pub open spec fn comma_joined(parts: Seq<Seq<char>>) -> Seq<char>
    decreases parts.len(),
{
    if parts.len() == 0 {
        Seq::empty()
    } else if parts.len() == 1 {
        parts[0]
    } else {
        comma_joined(parts.drop_last()) + ", "@ + parts.last()
    }
}

/// The debug form of a list whose items are written out: between square
/// brackets, a comma and a space between two neighbours.
pub open spec fn debug_list(parts: Seq<Seq<char>>) -> Seq<char> {
    seq!['['] + comma_joined(parts) + seq![']']
}

/// The debug form of a binding: `("name", ObjectReference(k))`.
pub open spec fn binding_debug(b: (Seq<char>, ObjectReference)) -> Seq<char> {
    seq!['('] + debug_text(b.0) + ", ObjectReference("@ + nat_text(b.1.0 as nat) + "))"@
}

/// The debug form of a scope: its bindings, in order.
pub open spec fn frame_debug(f: Seq<(Seq<char>, ObjectReference)>) -> Seq<char> {
    debug_list(f.map_values(|b: (Seq<char>, ObjectReference)| binding_debug(b)))
}

/// The debug form of the scopes, the outermost first.
pub open spec fn stack_debug(st: Seq<Seq<(Seq<char>, ObjectReference)>>) -> Seq<char> {
    debug_list(st.map_values(|f: Seq<(Seq<char>, ObjectReference)>| frame_debug(f)))
}

/// After `acc`, a line for each object from the `i`-th on,
/// `  ObjectReference(k): ` and its text (see `obj_text`), and what is left of `ft`.
pub open spec fn objects_debug(s: EnvV, i: int, acc: Seq<char>, ft: Seq<(u64, Seq<char>)>) -> Option<(Seq<char>, Seq<(u64, Seq<char>)>)>
    decreases s.objects.len() - i,
{
    if i < 0 || i >= s.objects.len() {
        Some((acc, ft))
    } else {
        match obj_text(s, s.objects[i], u64::MAX as nat, ft) {
            Some((t, ft1)) => objects_debug(
                s,
                i + 1,
                acc + "  ObjectReference("@ + nat_text(i as nat) + "): "@ + t + seq!['\n'],
                ft1,
            ),
            None => None,
        }
    }
}

/// A dump of an environment for debugging: the number of objects made and the
/// scopes on one line, then `objects:` and a line for each object.
pub open spec fn env_debug(s: EnvV, ft: Seq<(u64, Seq<char>)>) -> Option<(Seq<char>, Seq<(u64, Seq<char>)>)> {
    objects_debug(
        s,
        0,
        "Env { monotonic_object_count: "@ + nat_text(s.objects.len()) + ", stack: "@ + stack_debug(s.stack)
            + " }\nobjects:\n"@,
        ft,
    )
}

/// Appends the items of `parts` in their debug-list form.
pub(crate) fn write_debug_list(out: &mut String, parts: &Vec<String>)
    ensures
        final(out)@ == old(out)@ + debug_list(string_views(parts@)),
{
    let ghost start = out@;
    push_char(out, '[');
    let mut i: usize = 0;
    while i < parts.len()
        invariant
            i <= parts.len(),
            out@ == start + seq!['['] + comma_joined(string_views(parts@).take(i as int)),
        decreases parts.len() - i,
    {
        let ghost sv = string_views(parts@);
        proof {
            assert(sv.take(i + 1).drop_last() =~= sv.take(i as int));
            assert(sv.take(i + 1).last() == parts@[i as int]@);
        }
        if i > 0 {
            push_str(out, ", ");
        }
        push_str(out, parts[i].as_str());
        proof {
            if i == 0 {
                assert(sv.take(0) =~= Seq::<Seq<char>>::empty());
                assert(sv.take(1) =~= seq![parts@[0]@]);
                assert(comma_joined(sv.take(1)) == parts@[0]@);
            }
            assert(out@ =~= start + seq!['['] + comma_joined(sv.take(i + 1)));
        }
        i = i + 1;
    }
    assert(string_views(parts@).take(parts.len() as int) =~= string_views(parts@));
    push_char(out, ']');
    assert(out@ =~= start + debug_list(string_views(parts@)));
}

/// The debug form of a binding.
pub(crate) fn binding_string(b: &Binding) -> (r: String)
    ensures
        r@ == binding_debug(binding_view(*b)),
{
    let mut t = String::new();
    push_char(&mut t, '(');
    let q = debug_quoted(b.0.as_str());
    push_str(&mut t, q.as_str());
    push_str(&mut t, ", ObjectReference(");
    push_nat(&mut t, b.1.0 as u64);
    push_str(&mut t, "))");
    assert(t@ =~= binding_debug(binding_view(*b)));
    t
}

/// The debug form of a scope.
pub(crate) fn frame_string(f: &Frame) -> (r: String)
    ensures
        r@ == frame_debug(frame_view(*f)),
{
    let ghost want = frame_view(*f).map_values(|b: (Seq<char>, ObjectReference)| binding_debug(b));
    let mut parts: Vec<String> = Vec::new();
    let mut i: usize = 0;
    while i < f.len()
        invariant
            i <= f@.len(),
            want == frame_view(*f).map_values(|b: (Seq<char>, ObjectReference)| binding_debug(b)),
            string_views(parts@) == want.take(i as int),
        decreases f@.len() - i,
    {
        let x = binding_string(&f[i]);
        let ghost before = string_views(parts@);
        parts.push(x);
        proof {
            assert(frame_view(*f)[i as int] == binding_view(f@[i as int]));
            assert(string_views(parts@) =~= before.push(x@));
            assert(want.take(i + 1) =~= want.take(i as int).push(want[i as int]));
        }
        i = i + 1;
    }
    assert(want.take(f@.len() as int) =~= want);
    let mut t = String::new();
    write_debug_list(&mut t, &parts);
    assert(t@ =~= frame_debug(frame_view(*f)));
    t
}

/// The debug form of a reference: `ObjectReference(k)`.
pub open spec fn ref_debug(r: ObjectReference) -> Seq<char> {
    "ObjectReference("@ + nat_text(r.0 as nat) + seq![')']
}

/// The debug form of a list of references.
pub open spec fn refs_debug(xs: Seq<ObjectReference>) -> Seq<char> {
    debug_list(xs.map_values(|r: ObjectReference| ref_debug(r)))
}

/// The debug form of a typed parameter: `("name", None)` or `("name", Some(type))`.
pub open spec fn typed_param_debug(p: (Seq<char>, Option<TypeV>)) -> Seq<char> {
    seq!['('] + debug_text(p.0) + ", "@ + opt_type_debug_text(p.1) + seq![')']
}

/// The debug form of a function's parameter list.
pub open spec fn lambda_args_debug(a: ArgsV<(Seq<char>, Option<TypeV>)>) -> Seq<char> {
    "LambdaArgs { pre: "@ + debug_list(a.pre.map_values(|p: (Seq<char>, Option<TypeV>)| typed_param_debug(p)))
        + ", rest: "@ + match a.rest {
        Some(p) => "Some("@ + typed_param_debug(p) + seq![')'],
        None => "None"@,
    } + ", post: "@ + debug_list(a.post.map_values(|p: (Seq<char>, Option<TypeV>)| typed_param_debug(p))) + " }"@
}

/// The debug form of a macro's parameter list.
pub open spec fn macro_args_debug(a: ArgsV<Seq<char>>) -> Seq<char> {
    "MacroArgs { pre: "@ + debug_list(a.pre.map_values(|n: Seq<char>| debug_text(n))) + ", rest: "@ + match a.rest {
        Some(n) => "Some("@ + debug_text(n) + seq![')'],
        None => "None"@,
    } + ", post: "@ + debug_list(a.post.map_values(|n: Seq<char>| debug_text(n))) + " }"@
}

/// The debug form of one object, its references written as references (not
/// followed), and what is left of `ft`: a float is written as the next text
/// of `ft`, which must have been given for its bits (see `take_text`).
pub open spec fn obj_debug(o: ObjV, ft: Seq<(u64, Seq<char>)>) -> (Seq<char>, Seq<(u64, Seq<char>)>) {
    match o {
        ObjV::Atom(n) => ("Atom("@ + debug_text(n) + seq![')'], ft),
        ObjV::Integer(i) => ("Integer("@ + int_text(i as int) + seq![')'], ft),
        ObjV::Float(b) => {
            let (t, ft1) = take_text(ft, b);
            ("Float("@ + t + seq![')'], ft1)
        },
        ObjV::String(x) => ("String("@ + debug_text(x) + seq![')'], ft),
        ObjV::Pair(a, b) => ("Pair("@ + ref_debug(a) + ", "@ + ref_debug(b) + seq![')'], ft),
        ObjV::Array(xs) => ("Array("@ + refs_debug(xs) + seq![')'], ft),
        ObjV::Lambda { params, ret_ty, body } => (
            "Lambda { params: "@ + lambda_args_debug(params) + ", ret_ty: "@ + opt_type_debug_text(ret_ty)
                + ", body: "@ + refs_debug(body) + " }"@,
            ft,
        ),
        ObjV::Macro { names, code } => (
            "Macro { params: "@ + macro_args_debug(names) + ", body: "@ + refs_debug(code) + " }"@,
            ft,
        ),
        ObjV::Quote(r) => ("Quote("@ + ref_debug(r) + seq![')'], ft),
        ObjV::Quasiquote(r) => ("Quasiquote("@ + ref_debug(r) + seq![')'], ft),
        ObjV::Unquote(r) => ("Unquote("@ + ref_debug(r) + seq![')'], ft),
        ObjV::Dyadic(_) | ObjV::Monadic(_) | ObjV::Vararg(_) => ("Builtin"@, ft),
    }
}

fn ref_string(r: ObjectReference) -> (t: String)
    ensures
        t@ == ref_debug(r),
{
    let mut t = String::new();
    push_str(&mut t, "ObjectReference(");
    push_nat(&mut t, r.0 as u64);
    push_char(&mut t, ')');
    assert(t@ =~= ref_debug(r));
    t
}

fn refs_string(xs: &Vec<ObjectReference>) -> (t: String)
    ensures
        t@ == refs_debug(xs@),
{
    let ghost want = xs@.map_values(|r: ObjectReference| ref_debug(r));
    let mut parts: Vec<String> = Vec::new();
    let mut i: usize = 0;
    while i < xs.len()
        invariant
            i <= xs@.len(),
            want == xs@.map_values(|r: ObjectReference| ref_debug(r)),
            string_views(parts@) == want.take(i as int),
        decreases xs@.len() - i,
    {
        let x = ref_string(xs[i]);
        let ghost before = string_views(parts@);
        parts.push(x);
        proof {
            assert(string_views(parts@) =~= before.push(x@));
            assert(want.take(i + 1) =~= want.take(i as int).push(want[i as int]));
        }
        i = i + 1;
    }
    assert(want.take(xs@.len() as int) =~= want);
    let mut t = String::new();
    write_debug_list(&mut t, &parts);
    assert(t@ =~= refs_debug(xs@));
    t
}

fn typed_param_debug_string(p: &TypedParam) -> (t: String)
    ensures
        t@ == typed_param_debug(typed_param_view(*p)),
{
    let mut t = String::new();
    push_char(&mut t, '(');
    let q = debug_quoted(p.0.as_str());
    push_str(&mut t, q.as_str());
    push_str(&mut t, ", ");
    write_opt_type_debug(&mut t, &p.1);
    push_char(&mut t, ')');
    assert(t@ =~= typed_param_debug(typed_param_view(*p)));
    t
}

fn typed_params_debug_string(ps: &TypedParams) -> (t: String)
    ensures
        t@ == debug_list(ps@.map_values(|p: (Seq<char>, Option<TypeV>)| typed_param_debug(p))),
{
    let ghost want = ps@.map_values(|p: (Seq<char>, Option<TypeV>)| typed_param_debug(p));
    let mut parts: Vec<String> = Vec::new();
    let mut i: usize = 0;
    while i < ps.len()
        invariant
            i <= ps@.len(),
            want == ps@.map_values(|p: (Seq<char>, Option<TypeV>)| typed_param_debug(p)),
            string_views(parts@) == want.take(i as int),
        decreases ps@.len() - i,
    {
        let x = typed_param_debug_string(ps.get(i));
        let ghost before = string_views(parts@);
        parts.push(x);
        proof {
            assert(string_views(parts@) =~= before.push(x@));
            assert(want.take(i + 1) =~= want.take(i as int).push(want[i as int]));
        }
        i = i + 1;
    }
    assert(want.take(ps@.len() as int) =~= want);
    let mut t = String::new();
    write_debug_list(&mut t, &parts);
    t
}

fn names_debug_string(ns: &Names) -> (t: String)
    ensures
        t@ == debug_list(ns@.map_values(|n: Seq<char>| debug_text(n))),
{
    let ghost want = ns@.map_values(|n: Seq<char>| debug_text(n));
    let mut parts: Vec<String> = Vec::new();
    let mut i: usize = 0;
    while i < ns.len()
        invariant
            i <= ns@.len(),
            want == ns@.map_values(|n: Seq<char>| debug_text(n)),
            string_views(parts@) == want.take(i as int),
        decreases ns@.len() - i,
    {
        let x = debug_quoted(ns.get(i).as_str());
        let ghost before = string_views(parts@);
        parts.push(x);
        proof {
            assert(string_views(parts@) =~= before.push(x@));
            assert(want.take(i + 1) =~= want.take(i as int).push(want[i as int]));
        }
        i = i + 1;
    }
    assert(want.take(ns@.len() as int) =~= want);
    let mut t = String::new();
    write_debug_list(&mut t, &parts);
    t
}

fn lambda_debug_string(params: &LambdaArgs, ret_ty: &Option<LispType>, body: &Vec<ObjectReference>) -> (t: String)
    ensures
        t@ == "Lambda { params: "@ + lambda_args_debug(params@) + ", ret_ty: "@ + opt_type_debug_text(opt_type_view(*ret_ty))
            + ", body: "@ + refs_debug(body@) + " }"@,
{
    let mut t = String::new();
    push_str(&mut t, "Lambda { params: ");
    let ghost t0 = t@;
    push_str(&mut t, "LambdaArgs { pre: ");
    let sp = typed_params_debug_string(&params.pre);
    push_str(&mut t, sp.as_str());
    push_str(&mut t, ", rest: ");
    match &params.rest {
        Some(p) => {
            push_str(&mut t, "Some(");
            let x = typed_param_debug_string(p);
            push_str(&mut t, x.as_str());
            push_char(&mut t, ')');
        },
        None => push_str(&mut t, "None"),
    }
    push_str(&mut t, ", post: ");
    let sq = typed_params_debug_string(&params.post);
    push_str(&mut t, sq.as_str());
    push_str(&mut t, " }");
    assert(t@ =~= t0 + lambda_args_debug(params@));
    push_str(&mut t, ", ret_ty: ");
    write_opt_type_debug(&mut t, ret_ty);
    push_str(&mut t, ", body: ");
    let sb = refs_string(body);
    push_str(&mut t, sb.as_str());
    push_str(&mut t, " }");
    assert(t@ =~= "Lambda { params: "@ + lambda_args_debug(params@) + ", ret_ty: "@ + opt_type_debug_text(opt_type_view(*ret_ty))
        + ", body: "@ + refs_debug(body@) + " }"@);
    t
}

fn macro_debug_string(params: &MacroArgs, body: &Vec<ObjectReference>) -> (t: String)
    ensures
        t@ == "Macro { params: "@ + macro_args_debug(params@) + ", body: "@ + refs_debug(body@) + " }"@,
{
    let mut t = String::new();
    push_str(&mut t, "Macro { params: ");
    let ghost t0 = t@;
    push_str(&mut t, "MacroArgs { pre: ");
    let sp = names_debug_string(&params.pre);
    push_str(&mut t, sp.as_str());
    push_str(&mut t, ", rest: ");
    match &params.rest {
        Some(n) => {
            push_str(&mut t, "Some(");
            let x = debug_quoted(n.as_str());
            push_str(&mut t, x.as_str());
            push_char(&mut t, ')');
        },
        None => push_str(&mut t, "None"),
    }
    push_str(&mut t, ", post: ");
    let sq = names_debug_string(&params.post);
    push_str(&mut t, sq.as_str());
    push_str(&mut t, " }");
    assert(t@ =~= t0 + macro_args_debug(params@));
    push_str(&mut t, ", body: ");
    let sb = refs_string(body);
    push_str(&mut t, sb.as_str());
    push_str(&mut t, " }");
    assert(t@ =~= "Macro { params: "@ + macro_args_debug(params@) + ", body: "@ + refs_debug(body@) + " }"@);
    t
}

impl LispObject {
    /// The debug form of the object (see `obj_debug`): its references are
    /// written as references, and a float by `floats`, as the text it gives
    /// for the float's bits.
    #[verifier::rlimit(60)]
    #[verifier::spinoff_prover]
    pub fn debug_string<F: FloatOps>(&self, floats: &F) -> (r: String)
        ensures
            exists|u: Seq<(u64, Seq<char>)>| #[trigger] texts_by(*floats, u) && forall|rest: Seq<(u64, Seq<char>)>|
                #[trigger] obj_debug(self@, u + rest) == (r@, rest),
    {
        let ghost none = Seq::<(u64, Seq<char>)>::empty();
        let mut t = String::new();
        match self {
            LispObject::Atom(n) => {
                push_str(&mut t, "Atom(");
                let q = debug_quoted(n.as_str());
                push_str(&mut t, q.as_str());
                push_char(&mut t, ')');
            },
            LispObject::Integer(i) => {
                push_str(&mut t, "Integer(");
                push_int(&mut t, *i);
                push_char(&mut t, ')');
            },
            LispObject::Float(b) => {
                let (x, q) = ask_text(floats, *b);
                push_str(&mut t, "Float(");
                push_str(&mut t, x.as_str());
                push_char(&mut t, ')');
                proof {
                    let u = seq![q@];
                    assert(u[0] == q@);
                    assert(texts_by(*floats, u));
                    assert forall|rest: Seq<(u64, Seq<char>)>| #[trigger] obj_debug(self@, u + rest) == (t@, rest) by {
                        assert((u + rest)[0] == q@);
                        assert((u + rest).subrange(1, (u + rest).len() as int) =~= rest);
                    }
                }
                return t;
            },
            LispObject::String(x) => {
                push_str(&mut t, "String(");
                let q = debug_quoted(x.as_str());
                push_str(&mut t, q.as_str());
                push_char(&mut t, ')');
            },
            LispObject::Pair(a, b) => {
                push_str(&mut t, "Pair(");
                let sa = ref_string(*a);
                push_str(&mut t, sa.as_str());
                push_str(&mut t, ", ");
                let sb = ref_string(*b);
                push_str(&mut t, sb.as_str());
                push_char(&mut t, ')');
            },
            LispObject::Array(xs) => {
                push_str(&mut t, "Array(");
                let sx = refs_string(xs);
                push_str(&mut t, sx.as_str());
                push_char(&mut t, ')');
            },
            LispObject::Lambda { params, ret_ty, body } => {
                let x = lambda_debug_string(params, ret_ty, body);
                push_str(&mut t, x.as_str());
            },
            LispObject::Macro { params, body } => {
                let x = macro_debug_string(params, body);
                push_str(&mut t, x.as_str());
            },
            LispObject::Quote(r) => {
                push_str(&mut t, "Quote(");
                let x = ref_string(*r);
                push_str(&mut t, x.as_str());
                push_char(&mut t, ')');
            },
            LispObject::Quasiquote(r) => {
                push_str(&mut t, "Quasiquote(");
                let x = ref_string(*r);
                push_str(&mut t, x.as_str());
                push_char(&mut t, ')');
            },
            LispObject::Unquote(r) => {
                push_str(&mut t, "Unquote(");
                let x = ref_string(*r);
                push_str(&mut t, x.as_str());
                push_char(&mut t, ')');
            },
            LispObject::BuiltinDyadic(_) | LispObject::BuiltinMonadic(_) | LispObject::BuiltinVarargMacro(_) => {
                push_str(&mut t, "Builtin");
            },
        }
        assert(texts_by(*floats, none));
        assert forall|rest: Seq<(u64, Seq<char>)>| #[trigger] obj_debug(self@, none + rest) == (t@, rest) by {
            assert(none + rest =~= rest);
            assert(t@ =~= obj_debug(self@, rest).0);
        }
        t
    }
}

} // verus!
