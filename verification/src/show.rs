//! Writing trees out as text.
use vstd::prelude::*;

use crate::float::FloatOps;
use crate::small::{name_text, typed_param_view, TypedParam, TypedParams, Names};
use crate::text::{int_text, lemma_nil_literal, nil_text, push_char, push_int, push_str};
use crate::tree::{ArgsV, LambdaArgs, LispParseTree, LispType, MacroArgs, TreeV, TypeV, type_text, views};

verus! {

/// The Rust debug form of a string: in double quotes, with quotes, backslashes
/// and characters that are not printable escaped.
pub uninterp spec fn debug_text(s: Seq<char>) -> Seq<char>;

/// `format!("{:?}", s)`: the debug form of a string slice, a function of its characters alone.
#[verifier::external_body]
pub(crate) fn debug_quoted(s: &str) -> (r: String)
    ensures
        r@ == debug_text(s@),
{
    format!("{s:?}")
}

/// Items written one after another, a space between two neighbours.
pub open spec fn joined(parts: Seq<Seq<char>>) -> Seq<char>
    decreases parts.len(),
{
    if parts.len() == 0 {
        Seq::empty()
    } else if parts.len() == 1 {
        parts[0]
    } else {
        joined(parts.drop_last()) + seq![' '] + parts.last()
    }
}

/// Items written between square brackets, a space between two neighbours.
pub open spec fn bracketed(parts: Seq<Seq<char>>) -> Seq<char> {
    seq!['['] + joined(parts) + seq![']']
}

pub open spec fn string_views(v: Seq<String>) -> Seq<Seq<char>> {
    Seq::new(v.len(), |i: int| v[i]@)
}

/// Appends the items of `parts`, a space between two neighbours.
pub fn write_joined(out: &mut String, parts: &Vec<String>)
    ensures
        final(out)@ == old(out)@ + joined(string_views(parts@)),
{
    let ghost start = out@;
    let mut i: usize = 0;
    while i < parts.len()
        invariant
            i <= parts.len(),
            out@ == start + joined(string_views(parts@).take(i as int)),
        decreases parts.len() - i,
    {
        let ghost sv = string_views(parts@);
        proof {
            assert(sv.take(i + 1).drop_last() =~= sv.take(i as int));
            assert(sv.take(i + 1).last() == parts@[i as int]@);
        }
        if i > 0 {
            push_char(out, ' ');
        }
        push_str(out, parts[i].as_str());
        proof {
            if i == 0 {
                assert(sv.take(0) =~= Seq::<Seq<char>>::empty());
                assert(sv.take(1) =~= seq![parts@[0]@]);
                assert(joined(sv.take(1)) == parts@[0]@);
                assert(out@ =~= start + joined(sv.take(1)));
            } else {
                assert(out@ =~= start + joined(sv.take(i + 1)));
            }
        }
        i = i + 1;
    }
    assert(string_views(parts@).take(parts.len() as int) =~= string_views(parts@));
}

/// Writes the items of `elems` between square brackets, a space between two neighbours.
pub fn write_array(out: &mut String, elems: &Vec<String>)
    ensures
        final(out)@ == old(out)@ + bracketed(string_views(elems@)),
{
    push_char(out, '[');
    write_joined(out, elems);
    push_char(out, ']');
    assert(final(out)@ =~= old(out)@ + bracketed(string_views(elems@)));
}

/// The text of a typed parameter: its name, or its name and type in parentheses.
pub open spec fn param_text(p: (Seq<char>, Option<TypeV>)) -> Seq<char> {
    match p.1 {
        Some(t) => seq!['('] + p.0 + seq![' '] + type_text(t) + seq![')'],
        None => p.0,
    }
}

/// The items of a function's parameter list, as written.
pub open spec fn typed_params_text(a: ArgsV<(Seq<char>, Option<TypeV>)>) -> Seq<Seq<char>> {
    param_parts(a, |p: (Seq<char>, Option<TypeV>)| param_text(p))
}

/// The items of a macro's parameter list, as written.
pub open spec fn names_text(a: ArgsV<Seq<char>>) -> Seq<Seq<char>> {
    param_parts(a, |n: Seq<char>| n)
}

/// The items of a parameter list, in the order in which they are written:
/// the variadic parameter is followed by `&`.
pub open spec fn param_parts<T>(a: ArgsV<T>, text: spec_fn(T) -> Seq<char>) -> Seq<Seq<char>> {
    a.pre.map_values(text) + match a.rest {
        Some(r) => seq![text(r), "&"@],
        None => Seq::empty(),
    } + a.post.map_values(text)
}

/// The text of the next float, whose bits are `b`: the first text of `ft`,
/// where it was given for those bits, and the rest. Each entry of `ft` is a
/// question and its answer: the bits of a float and the text that the
/// caller's `FloatOps` wrote it as. A float whose text is not next in `ft`
/// gets no text and uses up all of `ft`, so that a text that leaves some
/// entries over was written with each float's own text.
pub open spec fn take_text(ft: Seq<(u64, Seq<char>)>, b: u64) -> (Seq<char>, Seq<(u64, Seq<char>)>) {
    if ft.len() > 0 && ft[0].0 == b {
        (ft[0].1, ft.subrange(1, ft.len() as int))
    } else {
        (Seq::empty(), Seq::empty())
    }
}

/// Whether each text of `ft` is the one that `floats` writes for its bits.
pub open spec fn texts_by<F: FloatOps>(floats: F, ft: Seq<(u64, Seq<char>)>) -> bool {
    forall|j: int| 0 <= j < ft.len() ==> (#[trigger] ft[j]).1 == floats.text_of(ft[j].0)@
}

pub proof fn lemma_texts_by_add<F: FloatOps>(floats: F, a: Seq<(u64, Seq<char>)>, b: Seq<(u64, Seq<char>)>)
    requires
        texts_by(floats, a),
        texts_by(floats, b),
    ensures
        texts_by(floats, a + b),
{
    assert forall|j: int| 0 <= j < (a + b).len() implies (#[trigger] (a + b)[j]).1 == floats.text_of((a + b)[j].0)@ by {
        if j < a.len() {
            assert((a + b)[j] == a[j]);
        } else {
            assert((a + b)[j] == b[j - a.len()]);
        }
    }
}

/// Asks `floats` for the text of the float whose bits are `b`; (as a ghost)
/// the question with its answer.
pub(crate) fn ask_text<F: FloatOps>(floats: &F, b: u64) -> (r: (String, Ghost<(u64, Seq<char>)>))
    ensures
        r.1@ == (b, r.0@),
        r.0@ == floats.text_of(b)@,
{
    let x = floats.to_text(b);
    let ghost q = (b, x@);
    (x, Ghost(q))
}

/// The text of a tree, and what is left of `ft`: each float is written as
/// the next text of `ft`, which must have been given for its bits (see `take_text`).
///
/// A list is written in parentheses (an improper one with ` . ` before its
/// last tail), an array in square brackets, a string in its debug form, a
/// quote with its sign in front, a function as `(λ [params] body)` and a macro
/// as `(macro [names] code)`, the expressions of a body a space apart.
pub open spec fn tree_text(t: TreeV, ft: Seq<(u64, Seq<char>)>) -> (Seq<char>, Seq<(u64, Seq<char>)>)
    decreases t, 0int,
{
    match t {
        TreeV::Atom(s) => (s, ft),
        TreeV::Integer(n) => (int_text(n as int), ft),
        TreeV::Float(b) => take_text(ft, b),
        TreeV::Pair(a, b) => {
            let (ta, ft1) = tree_text(*a, ft);
            let (tb, ft2) = cdr_text(*b, ft1);
            (seq!['('] + ta + tb + seq![')'], ft2)
        },
        TreeV::String(s) => (debug_text(s), ft),
        TreeV::Quote(a) => {
            let (ta, ft1) = tree_text(*a, ft);
            (seq!['\''] + ta, ft1)
        },
        TreeV::Quasiquote(a) => {
            let (ta, ft1) = tree_text(*a, ft);
            (seq!['`'] + ta, ft1)
        },
        TreeV::Unquote(a) => {
            let (ta, ft1) = tree_text(*a, ft);
            (seq![','] + ta, ft1)
        },
        TreeV::Array(items) => {
            let (ts, ft1) = texts_from(items, 0, Seq::empty(), ft);
            (bracketed(ts), ft1)
        },
        TreeV::Lambda { params, ret_ty, body } => {
            let (ts, ft1) = texts_from(body, 0, Seq::empty(), ft);
            ("(λ "@ + bracketed(typed_params_text(params)) + match ret_ty {
                Some(r) => " -> "@ + type_text(r),
                None => Seq::empty(),
            } + seq![' '] + joined(ts) + seq![')'], ft1)
        },
        TreeV::Macro { names, code } => {
            let (ts, ft1) = texts_from(code, 0, Seq::empty(), ft);
            ("(macro "@ + bracketed(names_text(names)) + seq![' '] + joined(ts) + seq![')'], ft1)
        },
    }
}

/// The rest of a list after its first item, `t` being its tail: nothing for
/// `nil`, each further item after a space, and ` . ` before a last tail that
/// is not `nil`; and what is left of `ft`.
pub open spec fn cdr_text(t: TreeV, ft: Seq<(u64, Seq<char>)>) -> (Seq<char>, Seq<(u64, Seq<char>)>)
    decreases t, 1int,
{
    match t {
        TreeV::Atom(s) => if s == nil_text() {
            (Seq::empty(), ft)
        } else {
            (" . "@ + s, ft)
        },
        TreeV::Pair(a, b) => {
            let (ta, ft1) = tree_text(*a, ft);
            let (tb, ft2) = cdr_text(*b, ft1);
            (seq![' '] + ta + tb, ft2)
        },
        _ => {
            let (x, ft1) = tree_text(t, ft);
            (" . "@ + x, ft1)
        },
    }
}

/// The texts of `items[i..]`, after those in `acc`, and what is left of `ft`.
pub open spec fn texts_from(items: Seq<TreeV>, i: int, acc: Seq<Seq<char>>, ft: Seq<(u64, Seq<char>)>) -> (Seq<Seq<char>>, Seq<(u64, Seq<char>)>)
    decreases items, items.len() - i,
{
    if i < 0 || i >= items.len() {
        (acc, ft)
    } else {
        let (x, ft1) = tree_text(items[i], ft);
        texts_from(items, i + 1, acc.push(x), ft1)
    }
}

pub(crate) fn typed_param_string(p: &TypedParam) -> (r: String)
    ensures
        r@ == param_text(typed_param_view(*p)),
{
    let mut s = String::new();
    match &p.1 {
        Some(t) => {
            push_char(&mut s, '(');
            push_str(&mut s, p.0.as_str());
            push_char(&mut s, ' ');
            t.write_to(&mut s);
            push_char(&mut s, ')');
            assert(s@ =~= param_text(typed_param_view(*p)));
        },
        None => {
            push_str(&mut s, p.0.as_str());
            assert(s@ =~= param_text(typed_param_view(*p)));
        },
    }
    s
}

pub(crate) fn push_typed_params(parts: &mut Vec<String>, ps: &TypedParams)
    ensures
        string_views(final(parts)@) == string_views(old(parts)@) + ps@.map_values(
            |p: (Seq<char>, Option<TypeV>)| param_text(p),
        ),
{
    let ghost start = string_views(parts@);
    let ghost want = ps@.map_values(|p: (Seq<char>, Option<TypeV>)| param_text(p));
    let mut i: usize = 0;
    while i < ps.len()
        invariant
            i <= ps@.len(),
            want == ps@.map_values(|p: (Seq<char>, Option<TypeV>)| param_text(p)),
            string_views(parts@) == start + want.take(i as int),
        decreases ps@.len() - i,
    {
        let s = typed_param_string(ps.get(i));
        let ghost before = string_views(parts@);
        parts.push(s);
        proof {
            assert(want.take(i + 1) =~= want.take(i as int).push(want[i as int]));
            assert(string_views(parts@) =~= before.push(s@));
        }
        i = i + 1;
    }
    assert(want.take(ps@.len() as int) =~= want);
}

pub(crate) fn push_names(parts: &mut Vec<String>, ns: &Names)
    ensures
        string_views(final(parts)@) == string_views(old(parts)@) + ns@.map_values(
            |n: Seq<char>| n,
        ),
{
    let ghost start = string_views(parts@);
    let ghost want = ns@.map_values(|n: Seq<char>| n);
    let mut i: usize = 0;
    while i < ns.len()
        invariant
            i <= ns@.len(),
            want == ns@.map_values(|n: Seq<char>| n),
            string_views(parts@) == start + want.take(i as int),
        decreases ns@.len() - i,
    {
        let mut s = String::new();
        push_str(&mut s, ns.get(i).as_str());
        let ghost before = string_views(parts@);
        parts.push(s);
        proof {
            assert(want.take(i + 1) =~= want.take(i as int).push(want[i as int]));
            assert(string_views(parts@) =~= before.push(s@));
        }
        i = i + 1;
    }
    assert(want.take(ns@.len() as int) =~= want);
}

pub(crate) fn push_amp(parts: &mut Vec<String>)
    ensures
        string_views(final(parts)@) == string_views(old(parts)@).push("&"@),
{
    let mut s = String::new();
    push_str(&mut s, "&");
    let ghost before = string_views(parts@);
    parts.push(s);
    assert(string_views(parts@) =~= before.push("&"@));
}

/// The items of a function's parameter list, each in a string of its own.
pub(crate) fn typed_param_strings(params: &LambdaArgs) -> (r: Vec<String>)
    ensures
        string_views(r@) == typed_params_text(params@),
{
    let mut ps: Vec<String> = Vec::new();
    assert(string_views(ps@) =~= Seq::<Seq<char>>::empty());
    push_typed_params(&mut ps, &params.pre);
    match &params.rest {
        Some(r) => {
            let ghost before = string_views(ps@);
            let rs = typed_param_string(r);
            ps.push(rs);
            assert(string_views(ps@) =~= before.push(rs@));
            push_amp(&mut ps);
        },
        None => {},
    }
    push_typed_params(&mut ps, &params.post);
    assert(string_views(ps@) =~= typed_params_text(params@));
    ps
}

/// The items of a macro's parameter list, each in a string of its own.
pub(crate) fn name_strings(params: &MacroArgs) -> (r: Vec<String>)
    ensures
        string_views(r@) == names_text(params@),
{
    let mut ps: Vec<String> = Vec::new();
    assert(string_views(ps@) =~= Seq::<Seq<char>>::empty());
    push_names(&mut ps, &params.pre);
    match &params.rest {
        Some(r) => {
            let ghost before = string_views(ps@);
            let mut rs = String::new();
            push_str(&mut rs, r.as_str());
            ps.push(rs);
            assert(string_views(ps@) =~= before.push(rs@));
            push_amp(&mut ps);
        },
        None => {},
    }
    push_names(&mut ps, &params.post);
    assert(string_views(ps@) =~= names_text(params@));
    ps
}

/// Renders each tree into a string of its own; (as a ghost) the texts that
/// their floats were written as, in order.
fn item_strings<F: FloatOps>(v: &Vec<LispParseTree>, floats: &F) -> (r: (Vec<String>, Ghost<Seq<(u64, Seq<char>)>>))
    ensures
        forall|rest: Seq<(u64, Seq<char>)>| #[trigger] texts_from(views(v@), 0, Seq::empty(), r.1@ + rest) == (string_views(r.0@), rest),
        texts_by(*floats, r.1@),
    decreases v,
{
    let ghost items = views(v@);
    let mut parts: Vec<String> = Vec::new();
    let ghost mut u = Seq::<(u64, Seq<char>)>::empty();
    proof {
        assert forall|rest: Seq<(u64, Seq<char>)>| #[trigger] texts_from(items, 0, Seq::empty(), u + rest) == texts_from(items, 0, string_views(parts@), rest) by {
            assert(u + rest =~= rest);
            assert(string_views(parts@) =~= Seq::<Seq<char>>::empty());
        }
    }
    let mut i: usize = 0;
    while i < v.len()
        invariant
            i <= v@.len(),
            items == views(v@),
            forall|rest: Seq<(u64, Seq<char>)>| #[trigger] texts_from(items, 0, Seq::empty(), u + rest) == texts_from(items, i as int, string_views(parts@), rest),
            texts_by(*floats, u),
        decreases v@.len() - i,
    {
        proof {
            assert(decreases_to!(v => v@[i as int]));
        }
        let (t, ui) = tree_string(&v[i], floats);
        let ghost before = parts@;
        let ghost u0 = u;
        parts.push(t);
        proof {
            u = u0 + ui@;
            lemma_texts_by_add(*floats, u0, ui@);
            assert(items[i as int] == v@[i as int]@);
            assert(string_views(parts@) =~= string_views(before).push(t@));
            assert forall|rest: Seq<(u64, Seq<char>)>| #[trigger] texts_from(items, 0, Seq::empty(), u + rest) == texts_from(items, i + 1, string_views(parts@), rest) by {
                assert(u + rest =~= u0 + (ui@ + rest));
                assert(texts_from(items, 0, Seq::empty(), u0 + (ui@ + rest)) == texts_from(items, i as int, string_views(before), ui@ + rest));
                assert(tree_text(v@[i as int]@, ui@ + rest) == (t@, rest));
            }
        }
        i = i + 1;
    }
    (parts, Ghost(u))
}

/// The text of a tree and (as a ghost) the texts that its floats were
/// written as, in order.
#[verifier::rlimit(60)]
#[verifier::spinoff_prover]
fn tree_string<F: FloatOps>(t: &LispParseTree, floats: &F) -> (r: (String, Ghost<Seq<(u64, Seq<char>)>>))
    ensures
        forall|rest: Seq<(u64, Seq<char>)>| #[trigger] tree_text(t@, r.1@ + rest) == (r.0@, rest),
        texts_by(*floats, r.1@),
    decreases t, 0int,
{
    let ghost none = Seq::<(u64, Seq<char>)>::empty();
    let mut out = String::new();
    match t {
        LispParseTree::Atom(n) => push_str(&mut out, n.as_str()),
        LispParseTree::Integer(i) => push_int(&mut out, *i),
        LispParseTree::Float(f) => {
            let (x, q) = ask_text(floats, *f);
            let ghost u = seq![q@];
            proof {
                assert(u[0] == q@);
                assert forall|rest: Seq<(u64, Seq<char>)>| #[trigger] tree_text(t@, u + rest) == (x@, rest) by {
                    assert((u + rest)[0] == q@);
                    assert((u + rest).subrange(1, (u + rest).len() as int) =~= rest);
                }
            }
            return (x, Ghost(u));
        },
        LispParseTree::String(x) => {
            let q = debug_quoted(x.as_str());
            push_str(&mut out, q.as_str());
        },
        LispParseTree::Pair(car, cdr) => {
            let (ta, ua) = tree_string(car, floats);
            let (tb, ub) = cdr_string(cdr, floats);
            push_char(&mut out, '(');
            push_str(&mut out, ta.as_str());
            push_str(&mut out, tb.as_str());
            push_char(&mut out, ')');
            let ghost u = ua@ + ub@;
            proof {
                lemma_texts_by_add(*floats, ua@, ub@);
                assert forall|rest: Seq<(u64, Seq<char>)>| #[trigger] tree_text(t@, u + rest) == (out@, rest) by {
                    assert(u + rest =~= ua@ + (ub@ + rest));
                    assert(tree_text(car@, ua@ + (ub@ + rest)) == (ta@, ub@ + rest));
                    assert(cdr_text(cdr@, ub@ + rest) == (tb@, rest));
                    assert(out@ =~= seq!['('] + ta@ + tb@ + seq![')']);
                }
            }
            return (out, Ghost(u));
        },
        LispParseTree::Quote(inner) | LispParseTree::Quasiquote(inner) | LispParseTree::Unquote(inner) => {
            let (ta, ua) = tree_string(inner, floats);
            let c = match t {
                LispParseTree::Quote(_) => '\'',
                LispParseTree::Quasiquote(_) => '`',
                _ => ',',
            };
            push_char(&mut out, c);
            push_str(&mut out, ta.as_str());
            proof {
                assert forall|rest: Seq<(u64, Seq<char>)>| #[trigger] tree_text(t@, ua@ + rest) == (out@, rest) by {
                    assert(tree_text(inner@, ua@ + rest) == (ta@, rest));
                    assert(out@ =~= seq![c] + ta@);
                }
            }
            return (out, ua);
        },
        LispParseTree::Array(arr) => {
            let (parts, u) = item_strings(arr, floats);
            write_array(&mut out, &parts);
            proof {
                assert(t@->Array_0 =~= views(arr@));
                assert forall|rest: Seq<(u64, Seq<char>)>| #[trigger] tree_text(t@, u@ + rest) == (out@, rest) by {
                    assert(texts_from(views(arr@), 0, Seq::empty(), u@ + rest) == (string_views(parts@), rest));
                }
            }
            return (out, u);
        },
        LispParseTree::Lambda { params, ret_ty, body } => {
            let ps = typed_param_strings(params);
            let (parts, u) = item_strings(body, floats);
            push_str(&mut out, "(λ ");
            write_array(&mut out, &ps);
            match ret_ty {
                Some(rt) => {
                    push_str(&mut out, " -> ");
                    rt.write_to(&mut out);
                },
                None => {},
            }
            push_char(&mut out, ' ');
            write_joined(&mut out, &parts);
            push_char(&mut out, ')');
            proof {
                assert(t@->body =~= views(body@));
                assert forall|rest: Seq<(u64, Seq<char>)>| #[trigger] tree_text(t@, u@ + rest) == (out@, rest) by {
                    assert(texts_from(views(body@), 0, Seq::empty(), u@ + rest) == (string_views(parts@), rest));
                }
            }
            return (out, u);
        },
        LispParseTree::Macro { params, body } => {
            let ps = name_strings(params);
            let (parts, u) = item_strings(body, floats);
            push_str(&mut out, "(macro ");
            write_array(&mut out, &ps);
            push_char(&mut out, ' ');
            write_joined(&mut out, &parts);
            push_char(&mut out, ')');
            proof {
                assert(t@->code =~= views(body@));
                assert forall|rest: Seq<(u64, Seq<char>)>| #[trigger] tree_text(t@, u@ + rest) == (out@, rest) by {
                    assert(texts_from(views(body@), 0, Seq::empty(), u@ + rest) == (string_views(parts@), rest));
                    assert(out@ =~= "(macro "@ + bracketed(names_text(params@)) + seq![' '] + joined(string_views(parts@)) + seq![')']);
                }
            }
            return (out, u);
        },
    }
    proof {
        assert forall|rest: Seq<(u64, Seq<char>)>| #[trigger] tree_text(t@, none + rest) == (out@, rest) by {
            assert(none + rest =~= rest);
        }
    }
    (out, Ghost(none))
}

/// The text of the rest of a list whose tail is `t`; see `cdr_text`.
#[verifier::rlimit(40)]
fn cdr_string<F: FloatOps>(t: &LispParseTree, floats: &F) -> (r: (String, Ghost<Seq<(u64, Seq<char>)>>))
    ensures
        forall|rest: Seq<(u64, Seq<char>)>| #[trigger] cdr_text(t@, r.1@ + rest) == (r.0@, rest),
        texts_by(*floats, r.1@),
    decreases t, 1int,
{
    proof {
        lemma_nil_literal();
    }
    let ghost none = Seq::<(u64, Seq<char>)>::empty();
    let mut out = String::new();
    match t {
        LispParseTree::Atom(n) => {
            if !n.is("nil") {
                push_str(&mut out, " . ");
                push_str(&mut out, n.as_str());
            }
            proof {
                assert forall|rest: Seq<(u64, Seq<char>)>| #[trigger] cdr_text(t@, none + rest) == (out@, rest) by {
                    assert(none + rest =~= rest);
                    assert(out@ =~= cdr_text(t@, rest).0);
                }
            }
            (out, Ghost(none))
        },
        LispParseTree::Pair(car, cdr) => {
            let (ta, ua) = tree_string(car, floats);
            let (tb, ub) = cdr_string(cdr, floats);
            push_char(&mut out, ' ');
            push_str(&mut out, ta.as_str());
            push_str(&mut out, tb.as_str());
            let ghost u = ua@ + ub@;
            proof {
                lemma_texts_by_add(*floats, ua@, ub@);
                assert forall|rest: Seq<(u64, Seq<char>)>| #[trigger] cdr_text(t@, u + rest) == (out@, rest) by {
                    assert(u + rest =~= ua@ + (ub@ + rest));
                    assert(tree_text(car@, ua@ + (ub@ + rest)) == (ta@, ub@ + rest));
                    assert(cdr_text(cdr@, ub@ + rest) == (tb@, rest));
                    assert(out@ =~= seq![' '] + ta@ + tb@);
                }
            }
            (out, Ghost(u))
        },
        _ => {
            let (x, u) = tree_string(t, floats);
            push_str(&mut out, " . ");
            push_str(&mut out, x.as_str());
            proof {
                assert forall|rest: Seq<(u64, Seq<char>)>| #[trigger] cdr_text(t@, u@ + rest) == (out@, rest) by {
                    assert(tree_text(t@, u@ + rest) == (x@, rest));
                    assert(out@ =~= " . "@ + x@);
                }
            }
            (out, u)
        },
    }
}

impl LispParseTree {
    /// Appends the text of the tree (see `tree_text`): each of its floats is
    /// written as the text that `floats` gives for its bits.
    pub fn write_to<F: FloatOps>(&self, out: &mut String, floats: &F)
        ensures
            exists|u: Seq<(u64, Seq<char>)>| #[trigger] texts_by(*floats, u) && forall|rest: Seq<(u64, Seq<char>)>|
                #[trigger] tree_text(self@, u + rest) == (final(out)@.skip(old(out)@.len() as int), rest),
            final(out)@.take(old(out)@.len() as int) == old(out)@,
    {
        let (t, u) = tree_string(self, floats);
        let ghost start = out@;
        push_str(out, t.as_str());
        proof {
            assert(out@.skip(start.len() as int) =~= t@);
            assert(out@.take(start.len() as int) =~= start);
            assert(texts_by(*floats, u@));
        }
    }

    /// The text of the tree (see `tree_text`): each of its floats is written as
    /// the text that `floats` gives for its bits.
    pub fn to_text<F: FloatOps>(&self, floats: &F) -> (r: String)
        ensures
            exists|u: Seq<(u64, Seq<char>)>| #[trigger] texts_by(*floats, u) && forall|rest: Seq<(u64, Seq<char>)>|
                #[trigger] tree_text(self@, u + rest) == (r@, rest),
    {
        let (t, u) = tree_string(self, floats);
        assert(texts_by(*floats, u@));
        t
    }
}

} // verus!
