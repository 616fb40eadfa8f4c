//! Splitting a parameter list at its variadic part.
//!
//! A parameter list may hold one `&`; the parameter just before it collects
//! the arguments that the parameters around it leave over.
use vstd::prelude::*;

use crate::small::{name_text, names_items, typed_param_view, typed_params_items, Name, Names, TypedParam, TypedParams};
use crate::tree::{duplicate_typed_param, ArgsV, LambdaArgs, MacroArgs, TypeV};

verus! {

/// The position of the first `&` among `names` at or after `k`.
pub open spec fn amp_from(names: Seq<Seq<char>>, k: int) -> Option<int>
    decreases names.len() - k,
{
    if k < 0 || k >= names.len() {
        None
    } else if names[k] == "&"@ {
        Some(k)
    } else {
        amp_from(names, k + 1)
    }
}

/// Whether some name after position `idx` is `&` as well.
pub open spec fn amp_after(names: Seq<Seq<char>>, idx: int) -> bool {
    exists|k: int| idx < k < names.len() && names[k] == "&"@
}

/// A parameter list split at its `&`: with no `&` every parameter is fixed;
/// with one `&`, the parameter before it is the variadic one, those before
/// that come first and those after the `&` come last; two or more are refused.
pub open spec fn split_at_amp<T>(items: Seq<T>, names: Seq<Seq<char>>) -> Result<ArgsV<T>, ()> {
    match amp_from(names, 0) {
        None => Ok(ArgsV { pre: items, rest: None, post: Seq::empty() }),
        Some(idx) => if amp_after(names, idx) {
            Err(())
        } else if idx == 1 {
            Ok(ArgsV { pre: Seq::empty(), rest: Some(items[0]), post: items.skip(2) })
        } else if idx == items.len() - 1 {
            Ok(
                ArgsV {
                    pre: items.take(items.len() - 2),
                    rest: Some(items[items.len() - 2]),
                    post: Seq::empty(),
                },
            )
        } else {
            Ok(
                ArgsV {
                    pre: items.take(idx - 1),
                    rest: Some(items[idx - 1]),
                    post: items.skip(idx + 1),
                },
            )
        },
    }
}

/// The inputs on which splitting stops with a panic: a single `&` in first position.
pub open spec fn amp_first(names: Seq<Seq<char>>) -> bool {
    amp_from(names, 0) matches Some(idx) && !amp_after(names, idx) && idx == 0
}

/// Whether a single `&` that stands right after the first parameter, or last, carries no type.
pub open spec fn untyped_end_amp(ps: Seq<(Seq<char>, Option<TypeV>)>) -> bool {
    match amp_from(param_names(ps), 0) {
        Some(idx) => !amp_after(param_names(ps), idx) && (idx == 1 || idx == ps.len() - 1)
            ==> ps[idx].1 is None,
        None => true,
    }
}

pub open spec fn param_names(ps: Seq<(Seq<char>, Option<TypeV>)>) -> Seq<Seq<char>> {
    ps.map_values(|p: (Seq<char>, Option<TypeV>)| p.0)
}

/// The message with which a list holding two `&` is refused.
pub open spec fn multiple_varargs_text() -> Seq<char> {
    "Lambda args may not contain multiple var-args sections"@
}

proof fn lemma_amp_from(names: Seq<Seq<char>>, k: int)
    requires
        0 <= k <= names.len(),
    ensures
        amp_from(names, k) matches Some(i) ==> k <= i < names.len() && names[i] == "&"@ && forall|
            j: int,
        |
            k <= j < i ==> names[j] != "&"@,
        amp_from(names, k) is None ==> forall|j: int| k <= j < names.len() ==> names[j] != "&"@,
    decreases names.len() - k,
{
    if k < names.len() && names[k] != "&"@ {
        lemma_amp_from(names, k + 1);
    }
}

fn first_amp_typed(ps: &TypedParams) -> (r: Option<usize>)
    ensures
        r matches Some(i) ==> amp_from(param_names(ps@), 0) == Some(i as int),
        r is None ==> amp_from(param_names(ps@), 0) is None,
{
    let ghost names = param_names(ps@);
    proof {
        lemma_amp_from(names, 0);
    }
    let mut k: usize = 0;
    while k < ps.len()
        invariant
            k <= ps@.len(),
            names == param_names(ps@),
            amp_from(names, 0) == amp_from(names, k as int),
        decreases ps@.len() - k,
    {
        let p = ps.get(k);
        assert(names[k as int] == name_text(p.0));
        if p.0.is("&") {
            return Some(k);
        }
        k = k + 1;
    }
    None
}

fn amp_after_typed(ps: &TypedParams, idx: usize) -> (r: bool)
    ensures
        r == amp_after(param_names(ps@), idx as int),
{
    let ghost names = param_names(ps@);
    if idx >= ps.len() {
        return false;
    }
    let mut k: usize = idx + 1;
    while k < ps.len()
        invariant
            idx < k <= ps@.len(),
            names == param_names(ps@),
            forall|j: int| idx < j < k ==> names[j] != "&"@,
        decreases ps@.len() - k,
    {
        let p = ps.get(k);
        assert(names[k as int] == name_text(p.0));
        if p.0.is("&") {
            return true;
        }
        k = k + 1;
    }
    false
}

fn typed_range(ps: &TypedParams, from: usize, to: usize) -> (r: TypedParams)
    requires
        from <= to <= ps@.len(),
    ensures
        r@ == ps@.subrange(from as int, to as int),
{
    let mut v: Vec<TypedParam> = Vec::new();
    let mut k = from;
    while k < to
        invariant
            from <= k <= to <= ps@.len(),
            v@.len() == k - from,
            forall|j: int| 0 <= j < v@.len() ==> typed_param_view(v@[j]) == ps@[from + j],
        decreases to - k,
    {
        let p = duplicate_typed_param(ps.get(k));
        v.push(p);
        k = k + 1;
    }
    let r = TypedParams::from_vec(v);
    assert(r@ =~= ps@.subrange(from as int, to as int));
    r
}

/// Splits the parameters of a function at their `&`.
///
/// A `&` that stands right after the first parameter, or last, must carry no type.
pub fn parse_lambda_args(old: TypedParams) -> (r: Result<LambdaArgs, &'static str>)
    requires
        !amp_first(param_names(old@)),
        untyped_end_amp(old@),
    ensures
        match split_at_amp(old@, param_names(old@)) {
            Ok(a) => r matches Ok(la) && la@ == a,
            Err(_) => r matches Err(m) && m@ == multiple_varargs_text(),
        },
{
    let n = old.len();
    proof {
        lemma_amp_from(param_names(old@), 0);
    }
    match first_amp_typed(&old) {
        None => {
            let r = LambdaArgs { pre: old, rest: None, post: TypedParams::from_vec(Vec::new()) };
            assert(r@.post =~= Seq::<(Seq<char>, Option<TypeV>)>::empty());
            Ok(r)
        },
        Some(idx) => {
            if amp_after_typed(&old, idx) {
                return Err("Lambda args may not contain multiple var-args sections");
            }
            if idx == 1 {
                let rest = duplicate_typed_param(old.get(0));
                let post = typed_range(&old, 2, n);
                let pre = TypedParams::from_vec(Vec::new());
                let r = LambdaArgs { pre, rest: Some(rest), post };
                assert(r@.pre =~= Seq::<(Seq<char>, Option<TypeV>)>::empty());
                assert(old@.skip(2) =~= old@.subrange(2, n as int));
                Ok(r)
            } else if idx == n - 1 {
                let pre = typed_range(&old, 0, n - 2);
                let rest = duplicate_typed_param(old.get(n - 2));
                let post = TypedParams::from_vec(Vec::new());
                let r = LambdaArgs { pre, rest: Some(rest), post };
                assert(r@.post =~= Seq::<(Seq<char>, Option<TypeV>)>::empty());
                assert(old@.take(n - 2) =~= old@.subrange(0, n - 2));
                Ok(r)
            } else {
                let pre = typed_range(&old, 0, idx - 1);
                let rest = duplicate_typed_param(old.get(idx - 1));
                let post = typed_range(&old, idx + 1, n);
                let r = LambdaArgs { pre, rest: Some(rest), post };
                assert(old@.take(idx - 1) =~= old@.subrange(0, idx - 1));
                assert(old@.skip(idx + 1) =~= old@.subrange(idx + 1, n as int));
                Ok(r)
            }
        },
    }
}

fn first_amp_names(ps: &Names) -> (r: Option<usize>)
    ensures
        r matches Some(i) ==> amp_from(ps@, 0) == Some(i as int),
        r is None ==> amp_from(ps@, 0) is None,
{
    let mut k: usize = 0;
    while k < ps.len()
        invariant
            k <= ps@.len(),
            amp_from(ps@, 0) == amp_from(ps@, k as int),
        decreases ps@.len() - k,
    {
        let p = ps.get(k);
        assert(ps@[k as int] == name_text(*p));
        if p.is("&") {
            return Some(k);
        }
        k = k + 1;
    }
    None
}

fn amp_after_names(ps: &Names, idx: usize) -> (r: bool)
    ensures
        r == amp_after(ps@, idx as int),
{
    if idx >= ps.len() {
        return false;
    }
    let mut k: usize = idx + 1;
    while k < ps.len()
        invariant
            idx < k <= ps@.len(),
            forall|j: int| idx < j < k ==> ps@[j] != "&"@,
        decreases ps@.len() - k,
    {
        let p = ps.get(k);
        assert(ps@[k as int] == name_text(*p));
        if p.is("&") {
            return true;
        }
        k = k + 1;
    }
    false
}

fn names_range(ps: &Names, from: usize, to: usize) -> (r: Names)
    requires
        from <= to <= ps@.len(),
    ensures
        r@ == ps@.subrange(from as int, to as int),
{
    let mut v: Vec<Name> = Vec::new();
    let mut k = from;
    while k < to
        invariant
            from <= k <= to <= ps@.len(),
            v@.len() == k - from,
            forall|j: int| 0 <= j < v@.len() ==> name_text(v@[j]) == ps@[from + j],
        decreases to - k,
    {
        let p = ps.get(k).duplicate();
        v.push(p);
        k = k + 1;
    }
    let r = Names::from_vec(v);
    assert(r@ =~= ps@.subrange(from as int, to as int));
    r
}

/// Splits the parameters of a macro at their `&`.
pub fn parse_macro_args(old: Names) -> (r: Result<MacroArgs, &'static str>)
    requires
        !amp_first(old@),
    ensures
        match split_at_amp(old@, old@) {
            Ok(a) => r matches Ok(ma) && ma@ == a,
            Err(_) => r matches Err(m) && m@ == multiple_varargs_text(),
        },
{
    let n = old.len();
    proof {
        lemma_amp_from(old@, 0);
    }
    match first_amp_names(&old) {
        None => {
            let r = MacroArgs { pre: old, rest: None, post: Names::from_vec(Vec::new()) };
            assert(r@.post =~= Seq::<Seq<char>>::empty());
            Ok(r)
        },
        Some(idx) => {
            if amp_after_names(&old, idx) {
                return Err("Lambda args may not contain multiple var-args sections");
            }
            if idx == 1 {
                let rest = old.get(0).duplicate();
                let post = names_range(&old, 2, n);
                let pre = Names::from_vec(Vec::new());
                let r = MacroArgs { pre, rest: Some(rest), post };
                assert(r@.pre =~= Seq::<Seq<char>>::empty());
                assert(old@.skip(2) =~= old@.subrange(2, n as int));
                Ok(r)
            } else if idx == n - 1 {
                let pre = names_range(&old, 0, n - 2);
                let rest = old.get(n - 2).duplicate();
                let post = Names::from_vec(Vec::new());
                let r = MacroArgs { pre, rest: Some(rest), post };
                assert(r@.post =~= Seq::<Seq<char>>::empty());
                assert(old@.take(n - 2) =~= old@.subrange(0, n - 2));
                Ok(r)
            } else {
                let pre = names_range(&old, 0, idx - 1);
                let rest = old.get(idx - 1).duplicate();
                let post = names_range(&old, idx + 1, n);
                let r = MacroArgs { pre, rest: Some(rest), post };
                assert(old@.take(idx - 1) =~= old@.subrange(0, idx - 1));
                assert(old@.skip(idx + 1) =~= old@.subrange(idx + 1, n as int));
                Ok(r)
            }
        },
    }
}

/// Whether `parse_lambda_args` takes a parameter list: no lone `&` in first
/// position, and no type on a `&` that stands right after the first parameter or last.
pub fn lambda_params_ok(ps: &TypedParams) -> (r: bool)
    ensures
        r == (!amp_first(param_names(ps@)) && untyped_end_amp(ps@)),
{
    proof {
        lemma_amp_from(param_names(ps@), 0);
    }
    match first_amp_typed(ps) {
        None => true,
        Some(idx) => {
            if amp_after_typed(ps, idx) {
                true
            } else if idx == 0 {
                false
            } else if idx == 1 || idx == ps.len() - 1 {
                let p = ps.get(idx);
                assert(ps@[idx as int] == typed_param_view(*p));
                p.1.is_none()
            } else {
                true
            }
        },
    }
}

/// Whether `parse_macro_args` takes a parameter list: no lone `&` in first position.
pub fn macro_params_ok(ns: &Names) -> (r: bool)
    ensures
        r == !amp_first(ns@),
{
    proof {
        lemma_amp_from(ns@, 0);
    }
    match first_amp_names(ns) {
        None => true,
        Some(idx) => amp_after_names(ns, idx) || idx != 0,
    }
}

} // verus!
