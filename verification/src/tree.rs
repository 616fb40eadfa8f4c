//! The tree that the reader produces: atoms, numbers, strings, pairs, arrays,
//! quotes and functions, with no environment behind it.
use vstd::prelude::*;

use crate::float::FloatOps;
use crate::small::{typed_param_view, Name, Names, TypedParam, TypedParams};
use crate::text::{
    int_text, lemma_nil_literal, nil_text, push_char, push_int, push_str, t_text,
};

verus! {

/// The type of a value, as it is written in a signature or reported in an error.
#[derive(Clone, PartialEq, Debug, Hash)]
pub enum LispType {
    Named(Name),
    Atom,
    Integer,
    Float,
    Pair,
    Array,
    Function,
    String,
    Code,
    Macro,
}

/// What a `LispType` is, with the characters of a named type.
pub enum TypeV {
    Named(Seq<char>),
    Atom,
    Integer,
    Float,
    Pair,
    Array,
    Function,
    String,
    Code,
    Macro,
}

impl View for LispType {
    type V = TypeV;

    open spec fn view(&self) -> TypeV {
        match self {
            LispType::Named(n) => TypeV::Named(n@),
            LispType::Atom => TypeV::Atom,
            LispType::Integer => TypeV::Integer,
            LispType::Float => TypeV::Float,
            LispType::Pair => TypeV::Pair,
            LispType::Array => TypeV::Array,
            LispType::Function => TypeV::Function,
            LispType::String => TypeV::String,
            LispType::Code => TypeV::Code,
            LispType::Macro => TypeV::Macro,
        }
    }
}

pub open spec fn opt_type_view(t: Option<LispType>) -> Option<TypeV> {
    match t {
        Some(t) => Some(t@),
        None => None,
    }
}

/// The text in which a type is written.
pub open spec fn type_text(t: TypeV) -> Seq<char> {
    match t {
        TypeV::Named(s) => s,
        TypeV::Atom => "atom"@,
        TypeV::Integer => "i32"@,
        TypeV::Float => "f64"@,
        TypeV::Pair => "list"@,
        TypeV::Array => "array"@,
        TypeV::Function => "function"@,
        TypeV::String => "string"@,
        TypeV::Code => "code"@,
        TypeV::Macro => "macro"@,
    }
}

impl LispType {
    /// A named type.
    pub fn named(s: &str) -> (r: LispType)
        ensures
            r@ == TypeV::Named(s@),
    {
        LispType::Named(Name::new(s))
    }

    pub fn duplicate(&self) -> (r: LispType)
        ensures
            r@ == self@,
    {
        match self {
            LispType::Named(n) => LispType::Named(n.duplicate()),
            LispType::Atom => LispType::Atom,
            LispType::Integer => LispType::Integer,
            LispType::Float => LispType::Float,
            LispType::Pair => LispType::Pair,
            LispType::Array => LispType::Array,
            LispType::Function => LispType::Function,
            LispType::String => LispType::String,
            LispType::Code => LispType::Code,
            LispType::Macro => LispType::Macro,
        }
    }

    /// Whether two types are the same: the same variant, and for named types the same name.
    pub fn same(&self, other: &LispType) -> (r: bool)
        ensures
            r == (self@ == other@),
    {
        match (self, other) {
            (LispType::Named(a), LispType::Named(b)) => a.same(b),
            (LispType::Atom, LispType::Atom) => true,
            (LispType::Integer, LispType::Integer) => true,
            (LispType::Float, LispType::Float) => true,
            (LispType::Pair, LispType::Pair) => true,
            (LispType::Array, LispType::Array) => true,
            (LispType::Function, LispType::Function) => true,
            (LispType::String, LispType::String) => true,
            (LispType::Code, LispType::Code) => true,
            (LispType::Macro, LispType::Macro) => true,
            _ => false,
        }
    }

    /// Appends the text of the type.
    pub fn write_to(&self, out: &mut String)
        ensures
            final(out)@ == old(out)@ + type_text(self@),
    {
        match self {
            LispType::Named(n) => push_str(out, n.as_str()),
            LispType::Atom => push_str(out, "atom"),
            LispType::Integer => push_str(out, "i32"),
            LispType::Float => push_str(out, "f64"),
            LispType::Pair => push_str(out, "list"),
            LispType::Array => push_str(out, "array"),
            LispType::Function => push_str(out, "function"),
            LispType::String => push_str(out, "string"),
            LispType::Code => push_str(out, "code"),
            LispType::Macro => push_str(out, "macro"),
        }
    }

    /// The text of the type.
    pub fn to_text(&self) -> (r: String)
        ensures
            r@ == type_text(self@),
    {
        let mut s = String::new();
        self.write_to(&mut s);
        s
    }
}

pub fn duplicate_opt_type(t: &Option<LispType>) -> (r: Option<LispType>)
    ensures
        opt_type_view(r) == opt_type_view(*t),
{
    match t {
        Some(t) => Some(t.duplicate()),
        None => None,
    }
}

pub fn duplicate_typed_param(p: &TypedParam) -> (r: TypedParam)
    ensures
        typed_param_view(r) == typed_param_view(*p),
{
    (p.0.duplicate(), duplicate_opt_type(&p.1))
}

/// A parameter list split at its variadic part: the names before it, the name
/// that collects the rest of the arguments, and the names after it.
pub struct ArgsV<T> {
    pub pre: Seq<T>,
    pub rest: Option<T>,
    pub post: Seq<T>,
}

impl<T> ArgsV<T> {
    /// The number of arguments that fill the fixed parameters.
    pub open spec fn fixed(self) -> nat {
        self.pre.len() + self.post.len()
    }
}

/// The parameters of a function: each with an optional type.
#[derive(Clone, PartialEq, Debug)]
pub struct LambdaArgs {
    pub pre: TypedParams,
    pub rest: Option<TypedParam>,
    pub post: TypedParams,
}

impl View for LambdaArgs {
    type V = ArgsV<(Seq<char>, Option<TypeV>)>;

    open spec fn view(&self) -> ArgsV<(Seq<char>, Option<TypeV>)> {
        ArgsV {
            pre: self.pre@,
            rest: match self.rest {
                Some(p) => Some(typed_param_view(p)),
                None => None,
            },
            post: self.post@,
        }
    }
}

impl LambdaArgs {
    pub fn duplicate(&self) -> (r: LambdaArgs)
        ensures
            r@ == self@,
    {
        LambdaArgs {
            pre: self.pre.duplicate(),
            rest: match &self.rest {
                Some(p) => Some(duplicate_typed_param(p)),
                None => None,
            },
            post: self.post.duplicate(),
        }
    }
}

/// The parameters of a macro.
#[derive(Clone, PartialEq, Debug)]
pub struct MacroArgs {
    pub pre: Names,
    pub rest: Option<Name>,
    pub post: Names,
}

impl View for MacroArgs {
    type V = ArgsV<Seq<char>>;

    open spec fn view(&self) -> ArgsV<Seq<char>> {
        ArgsV {
            pre: self.pre@,
            rest: match self.rest {
                Some(n) => Some(n@),
                None => None,
            },
            post: self.post@,
        }
    }
}

impl MacroArgs {
    pub fn duplicate(&self) -> (r: MacroArgs)
        ensures
            r@ == self@,
    {
        MacroArgs {
            pre: self.pre.duplicate(),
            rest: match &self.rest {
                Some(n) => Some(n.duplicate()),
                None => None,
            },
            post: self.post.duplicate(),
        }
    }
}

/// A tree of code or data as the reader produces it.
///
/// A float is carried as the bit pattern of its 64-bit IEEE-754 value.
#[derive(PartialEq, Debug)]
pub enum LispParseTree {
    Atom(Name),
    Integer(i32),
    Float(u64),
    Pair(Box<LispParseTree>, Box<LispParseTree>),
    Array(Vec<LispParseTree>),
    String(String),
    Lambda { params: LambdaArgs, ret_ty: Option<LispType>, body: Vec<LispParseTree> },
    Quote(Box<LispParseTree>),
    Quasiquote(Box<LispParseTree>),
    Unquote(Box<LispParseTree>),
    Macro { params: MacroArgs, body: Vec<LispParseTree> },
}

/// What a `LispParseTree` is.
pub enum TreeV {
    Atom(Seq<char>),
    Integer(i32),
    Float(u64),
    Pair(Box<TreeV>, Box<TreeV>),
    Array(Seq<TreeV>),
    String(Seq<char>),
    Lambda { params: ArgsV<(Seq<char>, Option<TypeV>)>, ret_ty: Option<TypeV>, body: Seq<TreeV> },
    Quote(Box<TreeV>),
    Quasiquote(Box<TreeV>),
    Unquote(Box<TreeV>),
    Macro { names: ArgsV<Seq<char>>, code: Seq<TreeV> },
}

impl LispParseTree {
    pub open spec fn tree_view(&self) -> TreeV
        decreases self,
    {
        match self {
            LispParseTree::Atom(n) => TreeV::Atom(n@),
            LispParseTree::Integer(i) => TreeV::Integer(*i),
            LispParseTree::Float(f) => TreeV::Float(*f),
            LispParseTree::Pair(a, b) => TreeV::Pair(
                Box::new(a.tree_view()),
                Box::new(b.tree_view()),
            ),
            LispParseTree::Array(v) => TreeV::Array(
                Seq::new(
                    v@.len(),
                    |i: int|
                        if 0 <= i < v@.len() {
                            v@[i].tree_view()
                        } else {
                            TreeV::Integer(0)
                        },
                ),
            ),
            LispParseTree::String(s) => TreeV::String(s@),
            LispParseTree::Lambda { params, ret_ty, body } => TreeV::Lambda {
                params: params@,
                ret_ty: opt_type_view(*ret_ty),
                body: Seq::new(
                    body@.len(),
                    |i: int|
                        if 0 <= i < body@.len() {
                            body@[i].tree_view()
                        } else {
                            TreeV::Integer(0)
                        },
                ),
            },
            LispParseTree::Quote(a) => TreeV::Quote(Box::new(a.tree_view())),
            LispParseTree::Quasiquote(a) => TreeV::Quasiquote(Box::new(a.tree_view())),
            LispParseTree::Unquote(a) => TreeV::Unquote(Box::new(a.tree_view())),
            LispParseTree::Macro { params, body } => TreeV::Macro {
                names: params@,
                code: Seq::new(
                    body@.len(),
                    |i: int|
                        if 0 <= i < body@.len() {
                            body@[i].tree_view()
                        } else {
                            TreeV::Integer(0)
                        },
                ),
            },
        }
    }
}

impl View for LispParseTree {
    type V = TreeV;

    open spec fn view(&self) -> TreeV {
        self.tree_view()
    }
}

/// The views of a sequence of trees.
pub open spec fn views(s: Seq<LispParseTree>) -> Seq<TreeV> {
    Seq::new(
        s.len(),
        |i: int|
            if 0 <= i < s.len() {
                s[i].tree_view()
            } else {
                TreeV::Integer(0)
            },
    )
}

/// The proper list of `items`: pairs whose last tail is the atom `nil`.
pub open spec fn list_v(items: Seq<TreeV>) -> TreeV
    decreases items.len(),
{
    if items.len() == 0 {
        TreeV::Atom(nil_text())
    } else {
        TreeV::Pair(Box::new(items[0]), Box::new(list_v(items.drop_first())))
    }
}

/// The items that walking a tree yields: the elements of a list (up to its
/// final tail, which is itself yielded unless it is `nil`), the elements of an
/// array, and for any other tree the tree itself.
pub open spec fn walk(t: TreeV) -> Seq<TreeV>
    decreases t,
{
    match t {
        TreeV::Atom(s) => if s == nil_text() {
            Seq::empty()
        } else {
            seq![t]
        },
        TreeV::Pair(a, b) => seq![*a].add(walk(*b)),
        TreeV::Array(items) => items,
        _ => seq![t],
    }
}

/// One step of walking a tree: the item it yields and the tree that is left.
pub open spec fn step(t: TreeV) -> (Option<TreeV>, TreeV) {
    match t {
        TreeV::Atom(s) => if s == nil_text() {
            (None, t)
        } else {
            (Some(t), TreeV::Atom(nil_text()))
        },
        TreeV::Pair(a, b) => (Some(*a), *b),
        TreeV::Array(items) => if items.len() == 0 {
            (None, t)
        } else {
            (Some(items[0]), TreeV::Array(items.drop_first()))
        },
        _ => (Some(t), TreeV::Atom(nil_text())),
    }
}

/// The first item that walking a tree would yield.
pub open spec fn first_item(t: TreeV) -> Option<TreeV> {
    step(t).0
}

/// The type that a tree reports.
pub open spec fn tree_type(t: TreeV) -> TypeV {
    match t {
        TreeV::Atom(_) => TypeV::Atom,
        TreeV::Integer(_) => TypeV::Integer,
        TreeV::Float(_) => TypeV::Float,
        TreeV::Pair(..) => TypeV::Pair,
        TreeV::Lambda { .. } => TypeV::Function,
        TreeV::String(_) => TypeV::String,
        TreeV::Array(..) => TypeV::Array,
        TreeV::Quote(_) | TreeV::Quasiquote(_) | TreeV::Unquote(_) => TypeV::Code,
        TreeV::Macro { .. } => TypeV::Macro,
    }
}

/// Walking a proper list gives back its items.
pub proof fn lemma_walk_list(items: Seq<TreeV>)
    ensures
        walk(list_v(items)) == items,
    decreases items.len(),
{
    if items.len() == 0 {
        assert(walk(list_v(items)) =~= items);
    } else {
        lemma_walk_list(items.drop_first());
        assert(seq![items[0]].add(items.drop_first()) =~= items);
    }
}

/// Each step yields the first item of the walk and leaves the rest of it;
/// a walk is over exactly when a step yields nothing.
pub proof fn lemma_step_walk(t: TreeV)
    ensures
        walk(t).len() == 0 <==> step(t).0 is None,
        walk(t).len() > 0 ==> step(t).0 == Some(walk(t)[0]) && walk(step(t).1) =~= walk(
            t,
        ).drop_first(),
{
    match t {
        TreeV::Atom(s) => {
            if s != nil_text() {
                assert(walk(TreeV::Atom(nil_text())) =~= Seq::<TreeV>::empty());
            }
        },
        TreeV::Pair(a, b) => {
            assert(seq![*a].add(walk(*b)).drop_first() =~= walk(*b));
        },
        TreeV::Array(items) => {},
        _ => {
            assert(walk(TreeV::Atom(nil_text())) =~= Seq::<TreeV>::empty());
        },
    }
}

impl LispParseTree {
    pub fn duplicate(&self) -> (r: LispParseTree)
        ensures
            r@ == self@,
        decreases self,
    {
        match self {
            LispParseTree::Atom(n) => LispParseTree::Atom(n.duplicate()),
            LispParseTree::Integer(i) => LispParseTree::Integer(*i),
            LispParseTree::Float(f) => LispParseTree::Float(*f),
            LispParseTree::Pair(a, b) => {
                let a2 = a.duplicate();
                let b2 = b.duplicate();
                LispParseTree::Pair(Box::new(a2), Box::new(b2))
            },
            LispParseTree::Array(v) => {
                let w = duplicate_trees(v);
                let r = LispParseTree::Array(w);
                assert(r@ == self@) by {
                    assert(views(w@) =~= views(v@));
                    assert(r@->Array_0 =~= views(w@));
                    assert(self@->Array_0 =~= views(v@));
                }
                r
            },
            LispParseTree::String(s) => LispParseTree::String(s.clone()),
            LispParseTree::Lambda { params, ret_ty, body } => {
                let w = duplicate_trees(body);
                let p2 = params.duplicate();
                let t2 = duplicate_opt_type(ret_ty);
                let r = LispParseTree::Lambda { params: p2, ret_ty: t2, body: w };
                assert(r@ == self@) by {
                    assert(views(w@) =~= views(body@));
                    assert(r@->body =~= views(w@));
                    assert(self@->body =~= views(body@));
                    assert(r@->params == self@->params);
                    assert(r@->ret_ty == self@->ret_ty);
                }
                r
            },
            LispParseTree::Quote(a) => LispParseTree::Quote(Box::new(a.duplicate())),
            LispParseTree::Quasiquote(a) => LispParseTree::Quasiquote(Box::new(a.duplicate())),
            LispParseTree::Unquote(a) => LispParseTree::Unquote(Box::new(a.duplicate())),
            LispParseTree::Macro { params, body } => {
                let w = duplicate_trees(body);
                let r = LispParseTree::Macro { params: params.duplicate(), body: w };
                assert(r@ == self@) by {
                    assert(views(w@) =~= views(body@));
                    assert(r@->code =~= views(w@));
                    assert(self@->code =~= views(body@));
                    assert(r@->names == self@->names);
                }
                r
            },
        }
    }
}

impl Clone for LispParseTree {
    fn clone(&self) -> Self {
        self.duplicate()
    }
}

fn duplicate_trees(v: &Vec<LispParseTree>) -> (w: Vec<LispParseTree>)
    ensures
        views(w@) == views(v@),
    decreases v,
{
    let mut w: Vec<LispParseTree> = Vec::new();
    let mut i: usize = 0;
    while i < v.len()
        invariant
            i <= v.len(),
            w@.len() == i,
            forall|j: int| 0 <= j < i ==> w@[j].tree_view() == v@[j].tree_view(),
        decreases v.len() - i,
    {
        proof {
            assert(decreases_to!(v => v@[i as int]));
        }
        let t = v[i].duplicate();
        w.push(t);
        i = i + 1;
    }
    assert(views(w@) =~= views(v@));
    w
}

pub open spec fn opt_tree_view(t: Option<LispParseTree>) -> Option<TreeV> {
    match t {
        Some(t) => Some(t@),
        None => None,
    }
}

proof fn lemma_views_remove_first(s: Seq<LispParseTree>)
    requires
        s.len() > 0,
    ensures
        views(s.remove(0)) == views(s).drop_first(),
{
    assert(views(s.remove(0)) =~= views(s).drop_first());
}

impl LispParseTree {
    /// The atom of the given name.
    pub fn atom(s: &str) -> (r: LispParseTree)
        ensures
            r@ == TreeV::Atom(s@),
    {
        LispParseTree::Atom(Name::new(s))
    }

    /// The atom `nil`.
    pub fn nil() -> (r: LispParseTree)
        ensures
            r@ == TreeV::Atom(nil_text()),
    {
        proof {
            lemma_nil_literal();
        }
        LispParseTree::Atom(Name::new("nil"))
    }

    /// A truth value: `t` for true and `nil` for false.
    pub fn from_bool(value: bool) -> (r: LispParseTree)
        ensures
            r@ == TreeV::Atom(if value { t_text() } else { nil_text() }),
    {
        proof {
            lemma_nil_literal();
        }
        if value {
            LispParseTree::Atom(Name::new("t"))
        } else {
            LispParseTree::Atom(Name::new("nil"))
        }
    }

    /// The pair of `car` and `cdr`.
    pub fn pair(car: LispParseTree, cdr: LispParseTree) -> (r: LispParseTree)
        ensures
            r@ == TreeV::Pair(Box::new(car@), Box::new(cdr@)),
    {
        LispParseTree::Pair(Box::new(car), Box::new(cdr))
    }

    /// The proper list of the trees in `v`.
    pub fn from_vec(v: Vec<LispParseTree>) -> (r: LispParseTree)
        ensures
            r@ == list_v(views(v@)),
    {
        let ghost all = views(v@);
        let ghost n = v@.len();
        let mut v = v;
        let mut acc = LispParseTree::nil();
        assert(all.subrange(n as int, n as int) =~= Seq::<TreeV>::empty());
        while v.len() > 0
            invariant
                v@.len() <= n,
                n == all.len(),
                forall|j: int| 0 <= j < v@.len() ==> v@[j]@ == all[j],
                acc@ == list_v(all.subrange(v@.len() as int, n as int)),
            decreases v@.len(),
        {
            let k = v.len() - 1;
            let t = v.pop().unwrap();
            proof {
                assert(t@ == all[k as int]);
                let tail = all.subrange(k as int, n as int);
                assert(tail.drop_first() =~= all.subrange(k + 1, n as int));
                assert(tail[0] == all[k as int]);
            }
            acc = LispParseTree::Pair(Box::new(t), Box::new(acc));
        }
        assert(all.subrange(0, n as int) =~= all);
        acc
    }

    /// The proper list of the trees in `v`, front to back.
    pub fn from_deque(v: std::collections::VecDeque<LispParseTree>) -> (r: LispParseTree)
        ensures
            r@ == list_v(views(v@)),
    {
        let ghost all = views(v@);
        let ghost n = v@.len();
        let mut v = v;
        let mut acc = LispParseTree::nil();
        assert(all.subrange(n as int, n as int) =~= Seq::<TreeV>::empty());
        while v.len() > 0
            invariant
                v@.len() <= n,
                n == all.len(),
                forall|j: int| 0 <= j < v@.len() ==> v@[j]@ == all[j],
                acc@ == list_v(all.subrange(v@.len() as int, n as int)),
            decreases v@.len(),
        {
            let k = v.len() - 1;
            let t = v.pop_back().unwrap();
            proof {
                assert(t@ == all[k as int]);
                let tail = all.subrange(k as int, n as int);
                assert(tail.drop_first() =~= all.subrange(k + 1, n as int));
                assert(tail[0] == all[k as int]);
            }
            acc = LispParseTree::Pair(Box::new(t), Box::new(acc));
        }
        assert(all.subrange(0, n as int) =~= all);
        acc
    }

    /// Takes one item off the tree: the head of a list, the first element of an
    /// array, or any other tree as a whole (leaving `nil`); nothing from `nil`
    /// or from an empty array.
    pub fn next(&mut self) -> (r: Option<LispParseTree>)
        ensures
            (opt_tree_view(r), final(self)@) == step(old(self)@),
    {
        proof {
            lemma_nil_literal();
        }
        let mut old = LispParseTree::Integer(0);
        std::mem::swap(&mut old, self);
        match old {
            LispParseTree::Atom(n) => {
                if n.is("nil") {
                    *self = LispParseTree::Atom(n);
                    None
                } else {
                    *self = LispParseTree::nil();
                    Some(LispParseTree::Atom(n))
                }
            },
            LispParseTree::Pair(a, b) => {
                *self = *b;
                Some(*a)
            },
            LispParseTree::Array(v) => {
                let mut v = v;
                if v.len() == 0 {
                    *self = LispParseTree::Array(v);
                    assert(self@->Array_0 =~= Seq::<TreeV>::empty());
                    None
                } else {
                    let ghost before = v@;
                    let first = v.remove(0);
                    proof {
                        lemma_views_remove_first(before);
                    }
                    *self = LispParseTree::Array(v);
                    assert(self@->Array_0 =~= views(v@));
                    assert(old@->Array_0 =~= views(before));
                    Some(first)
                }
            },
            other => {
                *self = LispParseTree::nil();
                Some(other)
            },
        }
    }

    /// The item that `next` would take off, without taking it.
    pub fn peek(&self) -> (r: Option<&LispParseTree>)
        ensures
            match r {
                Some(t) => first_item(self@) == Some(t@),
                None => first_item(self@) is None,
            },
    {
        proof {
            lemma_nil_literal();
        }
        match self {
            LispParseTree::Atom(n) => {
                if n.is("nil") {
                    None
                } else {
                    Some(self)
                }
            },
            LispParseTree::Pair(car, _) => Some(car),
            LispParseTree::Array(arr) => {
                if arr.len() == 0 {
                    None
                } else {
                    assert(self@->Array_0 =~= views(arr@));
                    Some(&arr[0])
                }
            },
            other => Some(other),
        }
    }

    /// The type of the tree.
    pub fn type_of(&self) -> (r: Option<LispType>)
        ensures
            r matches Some(t) && t@ == tree_type(self@),
    {
        let res = match self {
            LispParseTree::Atom(_) => LispType::Atom,
            LispParseTree::Integer(_) => LispType::Integer,
            LispParseTree::Float(_) => LispType::Float,
            LispParseTree::Pair(..) => LispType::Pair,
            LispParseTree::Lambda { .. } => LispType::Function,
            LispParseTree::String(_) => LispType::String,
            LispParseTree::Array(..) => LispType::Array,
            LispParseTree::Quote(_) | LispParseTree::Quasiquote(_) | LispParseTree::Unquote(
                _,
            ) => LispType::Code,
            LispParseTree::Macro { .. } => LispType::Macro,
        };
        Some(res)
    }

    /// A walk over the items of the tree.
    pub fn into_iter(self) -> (r: LispParseTreeIterator)
        ensures
            r.0@ == self@,
    {
        LispParseTreeIterator(self)
    }
}

/// A walk over the items of a tree (see `walk`).
pub struct LispParseTreeIterator(pub LispParseTree);

impl LispParseTreeIterator {
    /// The next item of the walk.
    pub fn next(&mut self) -> (r: Option<LispParseTree>)
        ensures
            (opt_tree_view(r), final(self).0@) == step(old(self).0@),
    {
        self.0.next()
    }

    /// All the items that are left, in order.
    pub fn collect_vec(self) -> (r: Vec<LispParseTree>)
        ensures
            views(r@) == walk(self.0@),
    {
        let ghost all = walk(self.0@);
        let mut it = self;
        let mut out: Vec<LispParseTree> = Vec::new();
        loop
            invariant
                views(out@) + walk(it.0@) == all,
                all == walk(self.0@),
            decreases walk(it.0@).len(),
        {
            let ghost before = it.0@;
            proof {
                lemma_step_walk(before);
            }
            match it.next() {
                Some(t) => {
                    let ghost old_out = views(out@);
                    out.push(t);
                    proof {
                        assert(views(out@) =~= old_out.push(t@));
                        assert(old_out.push(t@) + walk(it.0@) =~= old_out + walk(before));
                    }
                },
                None => {
                    assert(walk(before).len() == 0);
                    assert(it.0@ == step(before).1);
                    assert(step(before).1 == before);
                    assert(views(out@) + walk(before) =~= views(out@));
                    return out;
                },
            }
        }
    }
}

/// Walking a proper list gives back the items it was built from.
pub proof fn law_list_walk_gives_items(items: Seq<TreeV>)
    ensures
        walk(list_v(items)) == items,
{
    lemma_walk_list(items);
}

/// Walking a list and walking an array of the same items give the same items.
pub proof fn law_list_and_array_walk_agree(items: Seq<TreeV>)
    ensures
        walk(list_v(items)) == walk(TreeV::Array(items)),
{
    lemma_walk_list(items);
}

} // verus!
