//! Runtime objects and the environment that holds them.
//!
//! Every value lives in the environment's object store and is reached through
//! an `ObjectReference`, its index there. A reference is always valid: every
//! operation keeps each reference held by an object, by a scope or handed out
//! below the number of objects (`EnvV::wf`).
use vstd::prelude::*;

use crate::small::{name_text, Name};
use crate::tree::{
    duplicate_opt_type, opt_type_view, ArgsV, LambdaArgs, LispType, MacroArgs, TypeV,
};
use crate::error::{ErrV, RuntimeError};
use crate::convert::obj_tree;
use crate::float::{ArithOp, CompareOp, FloatOps};
use crate::render::{obj_text, env_debug, frame_debug, frame_string, obj_string, objects_debug, stack_debug, write_debug_list};
use crate::show::{lemma_texts_by_add, string_views, texts_by};
use crate::text::{lemma_nil_literal, nat_text, nil_text, push_char, push_nat, push_str, t_text};

verus! {

/// A handle to an object in an environment: its index in the object store.
#[derive(Clone, Copy, PartialEq, Eq, Hash, Debug, Structural)]
pub struct ObjectReference(pub usize);

/// The builtin functions of two evaluated arguments.
#[derive(Clone, Copy, PartialEq, Eq, Debug, Structural)]
pub enum Dyadic {
    Assign,
    Declare,
    Add,
    Mul,
    Sub,
    Div,
    Mod,
    Eq,
    Lt,
    Gt,
    Le,
    Ge,
}

/// The builtin functions of one evaluated argument.
#[derive(Clone, Copy, PartialEq, Eq, Debug, Structural)]
pub enum Monadic {
    Print,
    Println,
}

/// The builtin forms that take their arguments as unevaluated code.
#[derive(Clone, Copy, PartialEq, Eq, Debug, Structural)]
pub enum VarargMacro {
    Lambda,
    Macro,
    Defun,
}

/// A runtime value.
#[derive(Debug)]
pub enum LispObject {
    Atom(Name),
    Integer(i32),
    Float(u64),
    String(String),
    Pair(ObjectReference, ObjectReference),
    Array(Vec<ObjectReference>),
    Lambda { params: LambdaArgs, ret_ty: Option<LispType>, body: Vec<ObjectReference> },
    Macro { params: MacroArgs, body: Vec<ObjectReference> },
    BuiltinDyadic(Dyadic),
    BuiltinMonadic(Monadic),
    BuiltinVarargMacro(VarargMacro),
    Quote(ObjectReference),
    Quasiquote(ObjectReference),
    Unquote(ObjectReference),
}

/// What a runtime value is.
pub enum ObjV {
    Atom(Seq<char>),
    Integer(i32),
    Float(u64),
    String(Seq<char>),
    Pair(ObjectReference, ObjectReference),
    Array(Seq<ObjectReference>),
    Lambda { params: ArgsV<(Seq<char>, Option<TypeV>)>, ret_ty: Option<TypeV>, body: Seq<ObjectReference> },
    Macro { names: ArgsV<Seq<char>>, code: Seq<ObjectReference> },
    Dyadic(Dyadic),
    Monadic(Monadic),
    Vararg(VarargMacro),
    Quote(ObjectReference),
    Quasiquote(ObjectReference),
    Unquote(ObjectReference),
}

impl View for LispObject {
    type V = ObjV;

    open spec fn view(&self) -> ObjV {
        match self {
            LispObject::Atom(n) => ObjV::Atom(name_text(*n)),
            LispObject::Integer(i) => ObjV::Integer(*i),
            LispObject::Float(f) => ObjV::Float(*f),
            LispObject::String(s) => ObjV::String(s@),
            LispObject::Pair(a, b) => ObjV::Pair(*a, *b),
            LispObject::Array(v) => ObjV::Array(v@),
            LispObject::Lambda { params, ret_ty, body } => ObjV::Lambda {
                params: params@,
                ret_ty: opt_type_view(*ret_ty),
                body: body@,
            },
            LispObject::Macro { params, body } => ObjV::Macro { names: params@, code: body@ },
            LispObject::BuiltinDyadic(f) => ObjV::Dyadic(*f),
            LispObject::BuiltinMonadic(f) => ObjV::Monadic(*f),
            LispObject::BuiltinVarargMacro(f) => ObjV::Vararg(*f),
            LispObject::Quote(r) => ObjV::Quote(*r),
            LispObject::Quasiquote(r) => ObjV::Quasiquote(*r),
            LispObject::Unquote(r) => ObjV::Unquote(*r),
        }
    }
}

/// Whether every reference that an object holds is below `n`.
pub open spec fn refs_below(o: ObjV, n: nat) -> bool {
    match o {
        ObjV::Pair(a, b) => a.0 < n && b.0 < n,
        ObjV::Array(v) => forall|i: int| 0 <= i < v.len() ==> (#[trigger] v[i]).0 < n,
        ObjV::Lambda { body, .. } => forall|i: int| 0 <= i < body.len() ==> (#[trigger] body[i]).0 < n,
        ObjV::Macro { code, .. } => forall|i: int| 0 <= i < code.len() ==> (#[trigger] code[i]).0 < n,
        ObjV::Quote(r) => r.0 < n,
        ObjV::Quasiquote(r) => r.0 < n,
        ObjV::Unquote(r) => r.0 < n,
        _ => true,
    }
}

/// The type that an object reports.
pub open spec fn obj_type(o: ObjV) -> TypeV {
    match o {
        ObjV::Atom(_) => TypeV::Atom,
        ObjV::Integer(_) => TypeV::Integer,
        ObjV::Float(_) => TypeV::Float,
        ObjV::String(_) => TypeV::String,
        ObjV::Pair(..) => TypeV::Pair,
        ObjV::Array(..) => TypeV::Array,
        ObjV::Lambda { .. } | ObjV::Dyadic(_) | ObjV::Monadic(_) | ObjV::Vararg(_) => TypeV::Function,
        ObjV::Macro { .. } => TypeV::Macro,
        ObjV::Quote(_) | ObjV::Quasiquote(_) | ObjV::Unquote(_) => TypeV::Code,
    }
}

/// One binding of a scope: a name and the object it stands for.
pub type Binding = (Name, ObjectReference);

/// A scope: the bindings of one function call, most recent last.
pub type Frame = Vec<Binding>;

pub open spec fn binding_view(b: Binding) -> (Seq<char>, ObjectReference) {
    (name_text(b.0), b.1)
}

pub open spec fn frame_view(f: Frame) -> Seq<(Seq<char>, ObjectReference)> {
    f@.map_values(|b: Binding| binding_view(b))
}

/// A float operation that was asked of the caller, with its answer: the bits
/// of `x op y`, whether `x op y` holds, or the text that the float with bits
/// `b` is written as.
pub enum FloatAnswer {
    Bits(ArithOp, u64, u64, u64),
    Truth(CompareOp, u64, u64, bool),
    Text(u64, Seq<char>),
}

/// The question and answer of a text: the bits of the float and its text;
/// nothing for an answer that is not a text.
pub open spec fn answer_text(a: FloatAnswer) -> (u64, Seq<char>) {
    match a {
        FloatAnswer::Text(b, t) => (b, t),
        _ => (0, Seq::empty()),
    }
}

/// Whether the answer recorded in `a` is the one that `floats` gives to its question.
pub open spec fn answered_by<F: FloatOps>(floats: F, a: FloatAnswer) -> bool {
    match a {
        FloatAnswer::Bits(op, x, y, b) => b == floats.arith_of(op, x, y),
        FloatAnswer::Truth(op, x, y, b) => b == floats.compare_of(op, x, y),
        FloatAnswer::Text(b, t) => t == floats.text_of(b)@,
    }
}

/// Whether each answer recorded after those of `s`, up to those of `next`,
/// is the one that `floats` gives.
pub open spec fn answers_agree<F: FloatOps>(floats: F, s: EnvV, next: EnvV) -> bool {
    forall|i: int| s.floats.len() <= i < next.floats.len() ==> answered_by(floats, #[trigger] next.floats[i])
}

/// Answers that agree over two steps agree over both.
pub proof fn lemma_agree_trans<F: FloatOps>(floats: F, a: EnvV, b: EnvV, c: EnvV)
    requires
        a.floats.len() <= b.floats.len(),
        extends(c.floats, b.floats),
        answers_agree(floats, a, b),
        answers_agree(floats, b, c),
    ensures
        answers_agree(floats, a, c),
{
    assert forall|i: int| a.floats.len() <= i < c.floats.len() implies answered_by(floats, #[trigger] c.floats[i]) by {
        if i < b.floats.len() {
            assert(c.floats[i] == b.floats[i]);
        }
    }
}

/// Whether `l` begins with the answers `f`: `l` is one way in which the float
/// operations recorded in `f` may go on.
pub open spec fn extends(l: Seq<FloatAnswer>, f: Seq<FloatAnswer>) -> bool {
    f.len() <= l.len() && forall|i: int| 0 <= i < f.len() ==> l[i] == f[i]
}

/// What a result is, with the error taken by its view.
pub open spec fn res_view(r: Result<ObjectReference, RuntimeError>) -> Result<ObjectReference, ErrV> {
    match r {
        Ok(x) => Ok(x),
        Err(e) => Err(e@),
    }
}

/// What the result of a list of references is, with the error taken by its view.
pub open spec fn refs_view(r: Result<Vec<ObjectReference>, RuntimeError>) -> Result<Seq<ObjectReference>, ErrV> {
    match r {
        Ok(x) => Ok(x@),
        Err(e) => Err(e@),
    }
}

/// What an environment is: its objects, its scopes (the innermost last), what
/// was printed (each value with whether a line break follows it) and the
/// answers that float operations gave so far.
#[verifier::ext_equal]
pub struct EnvV {
    pub objects: Seq<ObjV>,
    pub stack: Seq<Seq<(Seq<char>, ObjectReference)>>,
    pub output: Seq<(Seq<char>, bool)>,
    pub floats: Seq<FloatAnswer>,
}

impl EnvV {
    pub open spec fn valid(self, r: ObjectReference) -> bool {
        r.0 < self.objects.len()
    }

    pub open spec fn obj(self, r: ObjectReference) -> ObjV {
        self.objects[r.0 as int]
    }

    /// Every reference held by an object or a scope is valid, and there is a scope.
    pub open spec fn wf(self) -> bool {
        &&& self.stack.len() >= 1
        &&& forall|i: int| 0 <= i < self.objects.len() ==> refs_below(#[trigger] self.objects[i], self.objects.len())
        &&& forall|f: int, k: int|
            0 <= f < self.stack.len() && 0 <= k < self.stack[f].len() ==> (#[trigger] self.stack[f][k]).1.0 < self.objects.len()
    }

    /// The environment with one more object.
    pub open spec fn with_object(self, o: ObjV) -> EnvV {
        EnvV { objects: self.objects.push(o), ..self }
    }

    /// `next` comes from `self` by adding objects, scopes and float answers,
    /// never by taking them away.
    pub open spec fn grows_to(self, next: EnvV) -> bool {
        &&& self.objects.len() <= next.objects.len()
        &&& self.stack.len() <= next.stack.len()
        &&& forall|i: int| 0 <= i < self.stack.len() - 1 ==> #[trigger] next.stack[i] == self.stack[i]
        &&& self.stack.len() >= 1 ==> self.top().len() <= next.stack[self.stack.len() - 1].len()
        &&& self.stack.len() >= 1 ==> forall|j: int|
            0 <= j < self.top().len() ==> #[trigger] next.stack[self.stack.len() - 1][j] == self.top()[j]
        &&& extends(next.floats, self.floats)
    }

    /// The innermost scope.
    pub open spec fn top(self) -> Seq<(Seq<char>, ObjectReference)> {
        self.stack.last()
    }
}

/// An environment: the object store, the scopes of the calls in progress, the
/// values printed so far, and (as a ghost) the answers of float operations.
pub struct Env {
    objects: Vec<LispObject>,
    stack: Vec<Frame>,
    output: Vec<(String, bool)>,
    floats: Ghost<Seq<FloatAnswer>>,
}

impl View for Env {
    type V = EnvV;

    closed spec fn view(&self) -> EnvV {
        EnvV {
            objects: self.objects@.map_values(|o: LispObject| o@),
            stack: self.stack@.map_values(|f: Frame| frame_view(f)),
            output: self.output@.map_values(|p: (String, bool)| (p.0@, p.1)),
            floats: self.floats@,
        }
    }
}

impl LispObject {
    /// A copy of the object.
    pub fn duplicate(&self) -> (r: LispObject)
        ensures
            r@ == self@,
    {
        match self {
            LispObject::Atom(n) => LispObject::Atom(n.duplicate()),
            LispObject::Integer(i) => LispObject::Integer(*i),
            LispObject::Float(f) => LispObject::Float(*f),
            LispObject::String(s) => LispObject::String(s.clone()),
            LispObject::Pair(a, b) => LispObject::Pair(*a, *b),
            LispObject::Array(v) => LispObject::Array(copy_refs(v)),
            LispObject::Lambda { params, ret_ty, body } => LispObject::Lambda {
                params: params.duplicate(),
                ret_ty: duplicate_opt_type(ret_ty),
                body: copy_refs(body),
            },
            LispObject::Macro { params, body } => LispObject::Macro {
                params: params.duplicate(),
                body: copy_refs(body),
            },
            LispObject::BuiltinDyadic(f) => LispObject::BuiltinDyadic(*f),
            LispObject::BuiltinMonadic(f) => LispObject::BuiltinMonadic(*f),
            LispObject::BuiltinVarargMacro(f) => LispObject::BuiltinVarargMacro(*f),
            LispObject::Quote(r) => LispObject::Quote(*r),
            LispObject::Quasiquote(r) => LispObject::Quasiquote(*r),
            LispObject::Unquote(r) => LispObject::Unquote(*r),
        }
    }

    /// The type of the object.
    pub fn type_of(&self) -> (r: LispType)
        ensures
            r@ == obj_type(self@),
    {
        match self {
            LispObject::Atom(_) => LispType::Atom,
            LispObject::Integer(_) => LispType::Integer,
            LispObject::Float(_) => LispType::Float,
            LispObject::String(_) => LispType::String,
            LispObject::Pair(..) => LispType::Pair,
            LispObject::Array(..) => LispType::Array,
            LispObject::Lambda { .. }
            | LispObject::BuiltinDyadic(_)
            | LispObject::BuiltinMonadic(_)
            | LispObject::BuiltinVarargMacro(_) => LispType::Function,
            LispObject::Macro { .. } => LispType::Macro,
            LispObject::Quote(_) | LispObject::Quasiquote(_) | LispObject::Unquote(_) => LispType::Code,
        }
    }

    /// The object after this one in a list: the cdr of a pair.
    pub fn next<'b>(&'b self, env: &'b Env) -> (r: Option<&'b LispObject>)
        requires
            env@.wf(),
            refs_below(self@, env@.objects.len()),
        ensures
            match self@ {
                ObjV::Pair(_, n) => r matches Some(o) && o@ == env@.obj(n),
                _ => r is None,
            },
    {
        match self {
            LispObject::Pair(_, next) => Some(env.get(*next)),
            _ => None,
        }
    }
}

impl ObjectReference {
    /// The object that the reference stands for.
    pub fn get<'b>(&self, env: &'b Env) -> (r: &'b LispObject)
        requires
            env@.wf(),
            env@.valid(*self),
        ensures
            r@ == env@.obj(*self),
    {
        env.get(*self)
    }

    /// The object after this one in a list: the object that the cdr of a pair stands for.
    pub fn peek<'b>(&self, env: &'b Env) -> (r: Option<&'b LispObject>)
        requires
            env@.wf(),
            env@.valid(*self),
        ensures
            match env@.obj(*self) {
                ObjV::Pair(_, n) => r matches Some(o) && o@ == env@.obj(n),
                _ => r is None,
            },
    {
        proof {
            lemma_obj_refs(env@, *self);
        }
        self.get(env).next(env)
    }

    /// Steps along a list: at a pair, moves to its cdr and gives its car;
    /// anywhere else, stays and gives nothing.
    pub fn next(&mut self, env: &Env) -> (r: Option<ObjectReference>)
        requires
            env@.wf(),
            env@.valid(*old(self)),
        ensures
            match env@.obj(*old(self)) {
                ObjV::Pair(a, n) => r == Some(a) && *final(self) == n,
                _ => r is None && *final(self) == *old(self),
            },
            env@.valid(*final(self)),
            r matches Some(a) ==> env@.valid(a),
    {
        proof {
            lemma_obj_refs(env@, *self);
        }
        match env.get(*self) {
            LispObject::Pair(this, next) => {
                let ret = *this;
                *self = *next;
                Some(ret)
            },
            _ => None,
        }
    }

    /// An iterator over the items of the list that starts here.
    pub fn iter<'b>(self, env: &'b Env) -> (r: LispObjectIterator<'b>)
        ensures
            r.reference == self,
            r.env == env,
    {
        LispObjectIterator { env, reference: self }
    }
}

/// Walks the items of a list in an environment.
pub struct LispObjectIterator<'b> {
    pub env: &'b Env,
    pub reference: ObjectReference,
}

impl<'b> LispObjectIterator<'b> {
    /// The next item of the list, if the walk is at a pair.
    pub fn next(&mut self) -> (r: Option<ObjectReference>)
        requires
            old(self).env@.wf(),
            old(self).env@.valid(old(self).reference),
        ensures
            final(self).env == old(self).env,
            match old(self).env@.obj(old(self).reference) {
                ObjV::Pair(a, n) => r == Some(a) && final(self).reference == n,
                _ => r is None && final(self).reference == old(self).reference,
            },
            old(self).env@.valid(final(self).reference),
    {
        let env = self.env;
        self.reference.next(env)
    }
}

/// A copy of a vector of references.
pub fn copy_refs(v: &Vec<ObjectReference>) -> (r: Vec<ObjectReference>)
    ensures
        r@ == v@,
{
    let mut w: Vec<ObjectReference> = Vec::new();
    let mut i: usize = 0;
    while i < v.len()
        invariant
            i <= v.len(),
            w@ == v@.take(i as int),
        decreases v.len() - i,
    {
        w.push(v[i]);
        proof {
            assert(v@.take(i + 1) =~= v@.take(i as int).push(v@[i as int]));
        }
        i = i + 1;
    }
    assert(v@.take(v.len() as int) =~= v@);
    w
}

/// The object that `id` stands for in a scope: its most recent binding.
pub open spec fn frame_lookup(f: Seq<(Seq<char>, ObjectReference)>, id: Seq<char>) -> Option<ObjectReference>
    decreases f.len(),
{
    if f.len() == 0 {
        None
    } else if f.last().0 == id {
        Some(f.last().1)
    } else {
        frame_lookup(f.drop_last(), id)
    }
}

/// The object that `id` stands for in any scope, the innermost first.
pub open spec fn stack_lookup(st: Seq<Seq<(Seq<char>, ObjectReference)>>, id: Seq<char>) -> Option<ObjectReference>
    decreases st.len(),
{
    if st.len() == 0 {
        None
    } else {
        match frame_lookup(st.last(), id) {
            Some(r) => Some(r),
            None => stack_lookup(st.drop_last(), id),
        }
    }
}

/// The environment after assigning an object's value to the variable `id`: the
/// object it stands for takes the value; a variable that stands for nothing
/// yet is first bound, in the innermost scope, to a new object.
pub open spec fn assign(s: EnvV, id: Seq<char>, val: ObjV) -> EnvV {
    match stack_lookup(s.stack, id) {
        Some(r) => EnvV { objects: s.objects.update(r.0 as int, val), ..s },
        None => {
            let r = ObjectReference(s.objects.len() as usize);
            EnvV {
                objects: s.objects.push(val),
                stack: s.stack.update(s.stack.len() - 1, s.top().push((id, r))),
                ..s
            }
        },
    }
}

proof fn lemma_frame_lookup_valid(f: Seq<(Seq<char>, ObjectReference)>, id: Seq<char>, n: nat)
    requires
        forall|k: int| 0 <= k < f.len() ==> (#[trigger] f[k]).1.0 < n,
    ensures
        frame_lookup(f, id) matches Some(r) ==> r.0 < n,
    decreases f.len(),
{
    if f.len() > 0 && f.last().0 != id {
        lemma_frame_lookup_valid(f.drop_last(), id, n);
    }
}

proof fn lemma_stack_lookup_valid(s: EnvV, st: Seq<Seq<(Seq<char>, ObjectReference)>>, id: Seq<char>)
    requires
        s.wf(),
        st.len() <= s.stack.len(),
        forall|f: int| 0 <= f < st.len() ==> st[f] == s.stack[f],
    ensures
        stack_lookup(st, id) matches Some(r) ==> s.valid(r),
    decreases st.len(),
{
    if st.len() > 0 {
        let f = st.last();
        assert forall|k: int| 0 <= k < f.len() implies (#[trigger] f[k]).1.0 < s.objects.len() by {
            assert(f == s.stack[st.len() - 1]);
            assert(s.stack[st.len() - 1][k] == f[k]);
        }
        lemma_frame_lookup_valid(f, id, s.objects.len());
        lemma_stack_lookup_valid(s, st.drop_last(), id);
    }
}

pub proof fn lemma_lookup_valid(s: EnvV, id: Seq<char>)
    requires
        s.wf(),
    ensures
        stack_lookup(s.stack, id) matches Some(r) ==> s.valid(r),
        frame_lookup(s.top(), id) matches Some(r) ==> s.valid(r),
{
    lemma_stack_lookup_valid(s, s.stack, id);
    let f = s.top();
    assert forall|k: int| 0 <= k < f.len() implies (#[trigger] f[k]).1.0 < s.objects.len() by {
        assert(s.stack[s.stack.len() - 1][k] == f[k]);
    }
    lemma_frame_lookup_valid(f, id, s.objects.len());
}

/// The references that a valid object holds are valid.
pub proof fn lemma_obj_refs(s: EnvV, r: ObjectReference)
    requires
        s.wf(),
        s.valid(r),
    ensures
        refs_below(s.obj(r), s.objects.len()),
        s.obj(r) matches ObjV::Array(v) ==> forall|i: int| 0 <= i < v.len() ==> s.valid(#[trigger] v[i]),
        s.obj(r) matches ObjV::Lambda { body, .. } ==> forall|i: int| 0 <= i < body.len() ==> s.valid(#[trigger] body[i]),
        s.obj(r) matches ObjV::Macro { code, .. } ==> forall|i: int| 0 <= i < code.len() ==> s.valid(#[trigger] code[i]),
        s.obj(r) matches ObjV::Pair(a, b) ==> s.valid(a) && s.valid(b),
        s.obj(r) matches ObjV::Quote(a) ==> s.valid(a),
        s.obj(r) matches ObjV::Quasiquote(a) ==> s.valid(a),
        s.obj(r) matches ObjV::Unquote(a) ==> s.valid(a),
{
    assert(refs_below(s.objects[r.0 as int], s.objects.len()));
}

/// Answers that go on from a later environment's also go on from an earlier one's.
pub proof fn lemma_extends_from(lq: Seq<FloatAnswer>, a: EnvV, b: EnvV)
    requires
        a.grows_to(b),
        extends(lq, b.floats),
    ensures
        extends(lq, a.floats),
{
    assert forall|i: int| 0 <= i < a.floats.len() implies lq[i] == a.floats[i] by {
        assert(lq[i] == b.floats[i]);
    }
}

/// Growing is transitive.
pub proof fn lemma_grows_trans(a: EnvV, b: EnvV, c: EnvV)
    requires
        a.grows_to(b),
        b.grows_to(c),
    ensures
        a.grows_to(c),
{
    let ka = a.stack.len() - 1;
    let kb = b.stack.len() - 1;
    assert forall|i: int| 0 <= i < a.stack.len() - 1 implies #[trigger] c.stack[i] == a.stack[i] by {
        assert(c.stack[i] == b.stack[i]);
    }
    if ka < 0 {
    } else if ka < kb {
        assert(c.stack[ka] == b.stack[ka]);
    } else {
        assert(b.top() == b.stack[kb]);
        assert forall|j: int| 0 <= j < a.top().len() implies #[trigger] c.stack[ka][j] == a.top()[j] by {
            assert(c.stack[kb][j] == b.top()[j]);
        }
    }
}

/// Objects that hold references below `n` still do so below any larger bound.
pub proof fn lemma_refs_below_mono(o: ObjV, n: nat, m: nat)
    requires
        refs_below(o, n),
        n <= m,
    ensures
        refs_below(o, m),
{
}

impl Env {
    /// A new environment whose single scope binds the builtins: `set`, `+`,
    /// `*`, `-`, `/`, `%`, `=`, `<`, `>`, `<=`, `>=`, `print`, `println`,
    /// `lambda`, `macro`, `defun` and `declare`, each to a new object holding
    /// it; then `t` and `nil`, each to a quote of itself.
    pub fn new() -> (r: Env)
        ensures
            r@.wf(),
            r@ == initial_env(),
    {
        let mut env = Env {
            objects: Vec::new(),
            stack: Vec::new(),
            output: Vec::new(),
            floats: Ghost(Seq::empty()),
        };
        let ghost e0 = env@;
        let frame: Frame = Vec::new();
        env.stack.push(frame);
        proof {
            assert(frame_view(frame) =~= Seq::<(Seq<char>, ObjectReference)>::empty());
            assert(env@.objects =~= Seq::<ObjV>::empty());
            assert(env@.stack =~= seq![Seq::<(Seq<char>, ObjectReference)>::empty()]);
            assert(env@.output =~= Seq::<(Seq<char>, bool)>::empty());
            assert(builtin_objects().take(0) =~= Seq::<ObjV>::empty());
            assert(builtin_frame().take(0) =~= Seq::<(Seq<char>, ObjectReference)>::empty());
            assert(env@ == initial_prefix(0));
        }
        let mut i: usize = 0;
        while i < 17
            invariant
                i <= 17,
                env@ == initial_prefix(i as int),
                env@.wf(),
            decreases 17 - i,
        {
            let ghost before = env@;
            let name = builtin_name(i);
            env.push_builtin(name, builtin_object(i));
            proof {
                assert(before.top() == builtin_frame().take(i as int));
                assert(before.objects.len() == i);
                assert(builtin_frame()[i as int] == (name@, ObjectReference(i)));
                assert(env@.stack =~= seq![builtin_frame().take(i as int).push(builtin_frame()[i as int])]);
                assert(builtin_objects().take(i + 1) =~= builtin_objects().take(i as int).push(
                    builtin_objects()[i as int],
                ));
                assert(builtin_frame().take(i + 1) =~= builtin_frame().take(i as int).push(
                    builtin_frame()[i as int],
                ));
                assert(env@ == initial_prefix(i + 1));
            }
            i = i + 1;
        }
        proof {
            assert(builtin_objects().take(17) =~= builtin_objects());
            assert(builtin_frame().take(17) =~= builtin_frame());
            lemma_nil_literal();
        }
        let t = env.create_object(LispObject::Atom(Name::new("t")));
        let tq = env.create_object(LispObject::Quote(t));
        env.bind_top(Name::new("t"), tq);
        let ghost s1 = env@;
        assert(s1.stack == seq![builtin_frame().push((t_text(), ObjectReference(18)))]);
        let n = env.create_object(LispObject::Atom(Name::new("nil")));
        let nq = env.create_object(LispObject::Quote(n));
        env.bind_top(Name::new("nil"), nq);
        proof {
            assert(env@.stack == seq![builtin_frame().push((t_text(), ObjectReference(18))).push((nil_text(), ObjectReference(20)))]);
            assert(builtin_frame().push((t_text(), ObjectReference(18))).push((nil_text(), ObjectReference(20))) =~= initial_frame());
            assert(env@.objects =~= initial_objects());
            assert(env@.stack =~= seq![initial_frame()]);
        }
        env
    }

    /// A new environment; see `new`. Environments are independent values here,
    /// so there is no other one to wait for.
    pub fn wait_for_new() -> (r: Env)
        ensures
            r@.wf(),
            r@ == initial_env(),
    {
        Env::new()
    }

    /// Binds `name`, in the innermost scope, to a new object holding a builtin.
    fn push_builtin(&mut self, name: &str, f: LispObject)
        requires
            old(self)@.wf(),
            refs_below(f@, 0),
        ensures
            final(self)@.wf(),
            final(self)@ == (EnvV {
                objects: old(self)@.objects.push(f@),
                stack: old(self)@.stack.update(
                    old(self)@.stack.len() - 1,
                    old(self)@.top().push((name@, ObjectReference(old(self)@.objects.len() as usize))),
                ),
                ..old(self)@
            }),
    {
        let r = self.create_object(f);
        self.bind_top(Name::new(name), r);
    }

    /// Adds an object to the store; it gets the next index.
    pub fn create_object(&mut self, obj: LispObject) -> (r: ObjectReference)
        requires
            old(self)@.wf(),
            refs_below(obj@, old(self)@.objects.len()),
        ensures
            final(self)@ == old(self)@.with_object(obj@),
            r.0 == old(self)@.objects.len(),
            final(self)@.wf(),
    {
        let ghost before = self@;
        let id = self.objects.len();
        self.objects.push(obj);
        proof {
            assert(self@.objects =~= before.objects.push(obj@));
            assert(self@.stack =~= before.stack);
            assert(self@.output =~= before.output);
            assert forall|i: int| 0 <= i < self@.objects.len() implies refs_below(
                #[trigger] self@.objects[i],
                self@.objects.len(),
            ) by {
                if i < before.objects.len() {
                    lemma_refs_below_mono(before.objects[i], before.objects.len(), self@.objects.len());
                }
            }
        }
        ObjectReference(id)
    }

    /// Binds `name` to `r` in the innermost scope.
    pub fn bind_top(&mut self, name: Name, r: ObjectReference)
        requires
            old(self)@.wf(),
            old(self)@.valid(r),
        ensures
            final(self)@ == (EnvV {
                stack: old(self)@.stack.update(
                    old(self)@.stack.len() - 1,
                    old(self)@.top().push((name_text(name), r)),
                ),
                ..old(self)@
            }),
            final(self)@.wf(),
    {
        let ghost before = self@;
        let last = self.stack.len() - 1;
        let mut frame = Vec::new();
        std::mem::swap(&mut frame, &mut self.stack[last]);
        frame.push((name, r));
        std::mem::swap(&mut frame, &mut self.stack[last]);
        proof {
            assert(self@.objects =~= before.objects);
            assert(self@.output =~= before.output);
            assert(frame_view(self.stack@[last as int]) =~= before.top().push((name_text(name), r)));
            assert(self@.stack =~= before.stack.update(
                before.stack.len() - 1,
                before.top().push((name_text(name), r)),
            ));
        }
    }

    /// The object that a reference stands for.
    pub fn get(&self, reference: ObjectReference) -> (r: &LispObject)
        requires
            self@.wf(),
            self@.valid(reference),
        ensures
            r@ == self@.obj(reference),
    {
        &self.objects[reference.0]
    }

    /// The object that a reference stands for, to be changed in place. What
    /// is written through it becomes that object; nothing else changes. A value
    /// written there must hold valid references for the environment to stay
    /// well formed.
    pub fn get_mut(&mut self, reference: ObjectReference) -> (r: &mut LispObject)
        requires
            old(self)@.valid(reference),
        ensures
            (*r)@ == old(self)@.obj(reference),
            final(self)@ == (EnvV {
                objects: old(self)@.objects.update(reference.0 as int, (*final(r))@),
                ..old(self)@
            }),
    {
        &mut self.objects[reference.0]
    }

    /// Replaces the object that a reference stands for.
    pub fn set_object(&mut self, reference: ObjectReference, obj: LispObject)
        requires
            old(self)@.wf(),
            old(self)@.valid(reference),
            refs_below(obj@, old(self)@.objects.len()),
        ensures
            final(self)@ == (EnvV {
                objects: old(self)@.objects.update(reference.0 as int, obj@),
                ..old(self)@
            }),
            final(self)@.wf(),
    {
        let ghost before = self@;
        self.objects.set(reference.0, obj);
        proof {
            assert(self@.objects =~= before.objects.update(reference.0 as int, obj@));
            assert(self@.stack =~= before.stack);
            assert(self@.output =~= before.output);
        }
    }

    /// A new `nil` atom.
    pub fn nil(&mut self) -> (r: ObjectReference)
        requires
            old(self)@.wf(),
        ensures
            final(self)@ == old(self)@.with_object(ObjV::Atom(nil_text())),
            r.0 == old(self)@.objects.len(),
            final(self)@.wf(),
    {
        proof {
            lemma_nil_literal();
        }
        self.create_object(LispObject::Atom(Name::new("nil")))
    }

    /// Opens a new innermost scope holding `frame`.
    pub fn push_frame(&mut self, frame: Frame)
        requires
            old(self)@.wf(),
            forall|k: int| 0 <= k < frame_view(frame).len() ==> old(self)@.valid(#[trigger] frame_view(frame)[k].1),
        ensures
            final(self)@ == (EnvV { stack: old(self)@.stack.push(frame_view(frame)), ..old(self)@ }),
            final(self)@.wf(),
    {
        let ghost before = self@;
        let ghost fv = frame_view(frame);
        self.stack.push(frame);
        proof {
            assert(self@.objects =~= before.objects);
            assert(self@.output =~= before.output);
            assert(self@.stack =~= before.stack.push(fv));
            assert forall|f: int, k: int|
                0 <= f < self@.stack.len() && 0 <= k < self@.stack[f].len() implies (
            #[trigger] self@.stack[f][k]).1.0 < self@.objects.len() by {
                if f == before.stack.len() {
                    assert(self@.stack[f][k] == fv[k]);
                }
            }
        }
    }

    /// The number of open scopes.
    pub fn depth(&self) -> (r: usize)
        ensures
            r == self@.stack.len(),
    {
        self.stack.len()
    }

    /// The number of bindings of the scope at position `k`.
    pub fn frame_len(&self, k: usize) -> (r: usize)
        requires
            k < self@.stack.len(),
        ensures
            r == self@.stack[k as int].len(),
    {
        self.stack[k].len()
    }

    /// Closes the innermost scope.
    pub fn pop_frame(&mut self)
        requires
            old(self)@.wf(),
            old(self)@.stack.len() >= 2,
        ensures
            final(self)@ == (EnvV { stack: old(self)@.stack.drop_last(), ..old(self)@ }),
            final(self)@.wf(),
    {
        let ghost before = self@;
        let _ = self.stack.pop();
        proof {
            assert(self@.objects =~= before.objects);
            assert(self@.output =~= before.output);
            assert(self@.stack =~= before.stack.drop_last());
            assert forall|f: int, k: int|
                0 <= f < self@.stack.len() && 0 <= k < self@.stack[f].len() implies (
            #[trigger] self@.stack[f][k]).1.0 < self@.objects.len() by {
                assert(self@.stack[f] == before.stack[f]);
            }
        }
    }

    /// Cuts the scope at position `k` back to its first `n` bindings.
    pub fn truncate_frame(&mut self, k: usize, n: usize)
        requires
            old(self)@.wf(),
            k < old(self)@.stack.len(),
        ensures
            final(self)@ == (EnvV { stack: old(self)@.stack.update(k as int, cut(old(self)@.stack[k as int], n as int)), ..old(self)@ }),
            final(self)@.wf(),
    {
        let ghost before = self@;
        let mut frame = Vec::new();
        std::mem::swap(&mut frame, &mut self.stack[k]);
        frame.truncate(n);
        std::mem::swap(&mut frame, &mut self.stack[k]);
        proof {
            assert(self@.objects =~= before.objects);
            assert(self@.output =~= before.output);
            assert(frame_view(self.stack@[k as int]) =~= cut(before.stack[k as int], n as int));
            assert(self@.stack =~= before.stack.update(k as int, cut(before.stack[k as int], n as int)));
            assert forall|f: int, j: int|
                0 <= f < self@.stack.len() && 0 <= j < self@.stack[f].len() implies (
            #[trigger] self@.stack[f][j]).1.0 < self@.objects.len() by {
                if f == k {
                    assert(self@.stack[f][j] == before.stack[f][j]);
                }
            }
        }
    }

    /// The object that `id` stands for in the innermost scope.
    pub fn get_local(&self, id: &Name) -> (r: Option<ObjectReference>)
        requires
            self@.wf(),
        ensures
            r == frame_lookup(self@.top(), id@),
            r matches Some(x) ==> self@.valid(x),
    {
        proof {
            lemma_lookup_valid(self@, id@);
        }
        let last = self.stack.len() - 1;
        find_in(&self.stack[last], id)
    }

    /// The object that `id` stands for in any scope, the innermost first.
    pub fn find_var(&self, id: &Name) -> (r: Option<ObjectReference>)
        requires
            self@.wf(),
        ensures
            r == stack_lookup(self@.stack, id@),
            r matches Some(x) ==> self@.valid(x),
    {
        proof {
            lemma_lookup_valid(self@, id@);
        }
        let ghost st = self@.stack;
        let mut j = self.stack.len();
        assert(st.take(j as int) =~= st);
        while j > 0
            invariant
                j <= self.stack@.len(),
                st == self@.stack,
                stack_lookup(st, id@) matches Some(x) ==> self@.valid(x),
                stack_lookup(st, id@) == stack_lookup(st.take(j as int), id@),
            decreases j,
        {
            let ghost pre = st.take(j as int);
            assert(pre.last() == st[j - 1]);
            assert(st[j - 1] == frame_view(self.stack@[j - 1]));
            assert(pre.drop_last() =~= st.take(j - 1));
            match find_in(&self.stack[j - 1], id) {
                Some(r) => {
                    return Some(r);
                },
                None => {},
            }
            j = j - 1;
        }
        assert(st.take(0) =~= Seq::<Seq<(Seq<char>, ObjectReference)>>::empty());
        None
    }

    /// The object that `id` stands for in the innermost scope, the only one
    /// whose names are in reach, or `UndefinedVariable`.
    pub fn get_stack_var(&self, id: &str) -> (r: Result<ObjectReference, RuntimeError>)
        requires
            self@.wf(),
        ensures
            match frame_lookup(self@.top(), id@) {
                Some(x) => r == Ok::<ObjectReference, RuntimeError>(x),
                None => r matches Err(e) && e@ == ErrV::UndefinedVariable(id@),
            },
    {
        let n = Name::new(id);
        match self.get_local(&n) {
            Some(x) => Ok(x),
            None => Err(RuntimeError::UndefinedVariable(n)),
        }
    }

    /// The object that `id` stands for in any scope; a variable that stands for
    /// nothing yet is first bound, in the innermost scope, to a new `nil`.
    pub fn get_stack_var_mut(&mut self, id: &str) -> (r: ObjectReference)
        requires
            old(self)@.wf(),
        ensures
            final(self)@.wf(),
            final(self)@ == assign(old(self)@, id@, ObjV::Atom(nil_text())) || stack_lookup(old(self)@.stack, id@) is Some,
            stack_lookup(old(self)@.stack, id@) is Some ==> final(self)@ == old(self)@,
            r == stack_lookup(final(self)@.stack, id@).unwrap(),
            final(self)@.valid(r),
    {
        let n = Name::new(id);
        match self.find_var(&n) {
            Some(x) => x,
            None => {
                let ghost before = self@;
                let r = self.nil();
                self.bind_top(n, r);
                proof {
                    lemma_lookup_after_bind(before.with_object(ObjV::Atom(nil_text())), id@, r);
                }
                r
            },
        }
    }

    /// Gives the variable `id` the value `val`: the object it stands for in any
    /// scope takes the value; a variable that stands for nothing yet is first
    /// bound, in the innermost scope, to a new object.
    pub fn assign_var(&mut self, id: &Name, val: LispObject)
        requires
            old(self)@.wf(),
            refs_below(val@, old(self)@.objects.len()),
        ensures
            final(self)@ == assign(old(self)@, id@, val@),
            final(self)@.wf(),
            old(self)@.grows_to(final(self)@),
    {
        match self.find_var(id) {
            Some(x) => self.set_object(x, val),
            None => {
                let r = self.create_object(val);
                self.bind_top(id.duplicate(), r);
            },
        }
    }

    /// Records an answer of a float operation.
    pub(crate) fn note_float(&mut self, a: Ghost<FloatAnswer>)
        ensures
            final(self)@ == (EnvV { floats: old(self)@.floats.push(a@), ..old(self)@ }),
    {
        let ghost before = self@;
        self.floats = Ghost(self.floats@.push(a@));
        proof {
            assert(self@.objects =~= before.objects);
            assert(self@.stack =~= before.stack);
            assert(self@.output =~= before.output);
        }
    }

    /// Records the texts that floats were written as.
    pub(crate) fn note_texts(&mut self, texts: Ghost<Seq<(u64, Seq<char>)>>)
        ensures
            final(self)@ == (EnvV {
                floats: old(self)@.floats + texts@.map_values(|p: (u64, Seq<char>)| FloatAnswer::Text(p.0, p.1)),
                ..old(self)@
            }),
    {
        let ghost before = self@;
        self.floats = Ghost(self.floats@ + texts@.map_values(|p: (u64, Seq<char>)| FloatAnswer::Text(p.0, p.1)));
        proof {
            assert(self@.objects =~= before.objects);
            assert(self@.stack =~= before.stack);
            assert(self@.output =~= before.output);
        }
    }

    /// Appends the text of a printed value, with whether a line break follows it.
    pub fn emit(&mut self, t: String, newline: bool)
        ensures
            final(self)@ == (EnvV { output: old(self)@.output.push((t@, newline)), ..old(self)@ }),
    {
        let ghost before = self@;
        self.output.push((t, newline));
        proof {
            assert(self@.objects =~= before.objects);
            assert(self@.stack =~= before.stack);
            assert(self@.output =~= before.output.push((t@, newline)));
        }
    }

    /// A dump of the environment for debugging (see `env_debug`): each object
    /// is written as values are printed, each float as the text that `floats`
    /// gives for its bits. Every object must be finite.
    pub fn debug_text<F: FloatOps>(&self, floats: &F) -> (r: String)
        requires
            self@.wf(),
            forall|i: int| 0 <= i < self@.objects.len() ==> (#[trigger] obj_tree(self@, self@.objects[i], u64::MAX as nat)) is Some,
        ensures
            exists|u: Seq<(u64, Seq<char>)>| #[trigger] texts_by(*floats, u) && forall|rest: Seq<(u64, Seq<char>)>|
                #[trigger] env_debug(self@, u + rest) == Some((r@, rest)),
    {
        let ghost s = self@;
        let ghost want = s.stack.map_values(|f: Seq<(Seq<char>, ObjectReference)>| frame_debug(f));
        let mut frames: Vec<String> = Vec::new();
        let mut k: usize = 0;
        while k < self.stack.len()
            invariant
                k <= self.stack@.len(),
                s == self@,
                want == s.stack.map_values(|f: Seq<(Seq<char>, ObjectReference)>| frame_debug(f)),
                string_views(frames@) == want.take(k as int),
            decreases self.stack@.len() - k,
        {
            let x = frame_string(&self.stack[k]);
            let ghost before = string_views(frames@);
            frames.push(x);
            proof {
                assert(s.stack[k as int] == frame_view(self.stack@[k as int]));
                assert(string_views(frames@) =~= before.push(x@));
                assert(want.take(k + 1) =~= want.take(k as int).push(want[k as int]));
            }
            k = k + 1;
        }
        assert(want.take(self.stack@.len() as int) =~= want);
        let mut out = String::new();
        push_str(&mut out, "Env { monotonic_object_count: ");
        push_nat(&mut out, self.objects.len() as u64);
        push_str(&mut out, ", stack: ");
        write_debug_list(&mut out, &frames);
        push_str(&mut out, " }\nobjects:\n");
        let ghost head = out@;
        assert(head =~= "Env { monotonic_object_count: "@ + nat_text(s.objects.len()) + ", stack: "@ + stack_debug(s.stack) + " }\nobjects:\n"@);
        let ghost mut u = Seq::<(u64, Seq<char>)>::empty();
        proof {
            assert forall|rest: Seq<(u64, Seq<char>)>| #[trigger] objects_debug(s, 0, head, u + rest) == objects_debug(s, 0, out@, rest) by {
                assert(u + rest =~= rest);
            }
        }
        let mut i: usize = 0;
        while i < self.objects.len()
            invariant
                i <= self.objects@.len(),
                s == self@,
                s.wf(),
                forall|j: int| 0 <= j < s.objects.len() ==> (#[trigger] obj_tree(s, s.objects[j], u64::MAX as nat)) is Some,
                forall|rest: Seq<(u64, Seq<char>)>| #[trigger] objects_debug(s, 0, head, u + rest) == objects_debug(s, i as int, out@, rest),
                texts_by(*floats, u),
            decreases self.objects@.len() - i,
        {
            assert(self.objects@[i as int]@ == s.objects[i as int]);
            assert(refs_below(s.objects[i as int], s.objects.len()));
            let (t, ui) = obj_string(self, &self.objects[i], u64::MAX, floats);
            let ghost o0 = out@;
            let ghost u0 = u;
            push_str(&mut out, "  ObjectReference(");
            push_nat(&mut out, i as u64);
            push_str(&mut out, "): ");
            push_str(&mut out, t.as_str());
            push_char(&mut out, '\n');
            proof {
                u = u0 + ui@;
                lemma_texts_by_add(*floats, u0, ui@);
                assert(out@ =~= o0 + "  ObjectReference("@ + nat_text(i as nat) + "): "@ + t@ + seq!['\n']);
                assert forall|rest: Seq<(u64, Seq<char>)>| #[trigger] objects_debug(s, 0, head, u + rest) == objects_debug(s, i + 1, out@, rest) by {
                    assert(u + rest =~= u0 + (ui@ + rest));
                    assert(objects_debug(s, 0, head, u0 + (ui@ + rest)) == objects_debug(s, i as int, o0, ui@ + rest));
                    assert(obj_text(s, s.objects[i as int], u64::MAX as nat, ui@ + rest) == Some((t@, rest)));
                }
            }
            i = i + 1;
        }
        proof {
            assert forall|rest: Seq<(u64, Seq<char>)>| #[trigger] env_debug(s, u + rest) == Some((out@, rest)) by {
                assert(objects_debug(s, 0, head, u + rest) == objects_debug(s, s.objects.len() as int, out@, rest));
            }
        }
        out
    }

    /// Hands out what was printed so far and forgets it.
    pub fn take_output(&mut self) -> (r: Vec<(String, bool)>)
        ensures
            r@.map_values(|p: (String, bool)| (p.0@, p.1)) == old(self)@.output,
            final(self)@ == (EnvV { output: Seq::empty(), ..old(self)@ }),
    {
        let ghost before = self@;
        let mut out = Vec::new();
        std::mem::swap(&mut out, &mut self.output);
        proof {
            assert(self@.objects =~= before.objects);
            assert(self@.stack =~= before.stack);
            assert(self@.output =~= Seq::<(Seq<char>, bool)>::empty());
        }
        out
    }
}

/// The object that `id` stands for in a scope.
pub fn find_in(frame: &Frame, id: &Name) -> (r: Option<ObjectReference>)
    ensures
        r == frame_lookup(frame_view(*frame), id@),
{
    let ghost fv = frame_view(*frame);
    let mut i = frame.len();
    assert(fv.take(i as int) =~= fv);
    while i > 0
        invariant
            i <= frame@.len(),
            fv == frame_view(*frame),
            frame_lookup(fv, id@) == frame_lookup(fv.take(i as int), id@),
        decreases i,
    {
        let ghost pre = fv.take(i as int);
        assert(fv[i - 1] == binding_view(frame@[i - 1]));
        assert(pre.last() == fv[i - 1]);
        assert(pre.drop_last() =~= fv.take(i - 1));
        if frame[i - 1].0.same(id) {
            assert(frame_lookup(pre, id@) == Some(pre.last().1));
            return Some(frame[i - 1].1);
        }
        i = i - 1;
    }
    assert(fv.take(0) =~= Seq::<(Seq<char>, ObjectReference)>::empty());
    None
}

/// After binding `id` in the innermost scope, looking it up gives that binding.
proof fn lemma_lookup_after_bind(s: EnvV, id: Seq<char>, r: ObjectReference)
    requires
        s.stack.len() >= 1,
    ensures
        stack_lookup(
            s.stack.update(s.stack.len() - 1, s.top().push((id, r))),
            id,
        ) == Some(r),
{
    let st = s.stack.update(s.stack.len() - 1, s.top().push((id, r)));
    assert(st.last() == s.top().push((id, r)));
}

/// A scope cut back to its first `n` bindings, or left whole when it is shorter.
pub open spec fn cut(f: Seq<(Seq<char>, ObjectReference)>, n: int) -> Seq<(Seq<char>, ObjectReference)> {
    if 0 <= n <= f.len() {
        f.take(n)
    } else {
        f
    }
}

/// The names of the builtins, in the order in which `Env::new` binds them.
pub open spec fn builtin_names() -> Seq<Seq<char>> {
    seq![
        "set"@, "+"@, "*"@, "-"@, "/"@, "%"@, "="@, "<"@, ">"@, "<="@, ">="@, "print"@, "println"@,
        "lambda"@, "macro"@, "defun"@, "declare"@,
    ]
}

/// The builtins, in the order in which `Env::new` binds them.
pub open spec fn builtin_objects() -> Seq<ObjV> {
    seq![
        ObjV::Dyadic(Dyadic::Assign), ObjV::Dyadic(Dyadic::Add), ObjV::Dyadic(Dyadic::Mul),
        ObjV::Dyadic(Dyadic::Sub), ObjV::Dyadic(Dyadic::Div), ObjV::Dyadic(Dyadic::Mod),
        ObjV::Dyadic(Dyadic::Eq), ObjV::Dyadic(Dyadic::Lt), ObjV::Dyadic(Dyadic::Gt),
        ObjV::Dyadic(Dyadic::Le), ObjV::Dyadic(Dyadic::Ge), ObjV::Monadic(Monadic::Print),
        ObjV::Monadic(Monadic::Println), ObjV::Vararg(VarargMacro::Lambda),
        ObjV::Vararg(VarargMacro::Macro), ObjV::Vararg(VarargMacro::Defun),
        ObjV::Dyadic(Dyadic::Declare),
    ]
}

/// The first scope: each builtin name bound to the object of the same position.
pub open spec fn builtin_frame() -> Seq<(Seq<char>, ObjectReference)> {
    Seq::new(17, |i: int| (builtin_names()[i], ObjectReference(i as usize)))
}

pub open spec fn initial_prefix(n: int) -> EnvV {
    EnvV {
        objects: builtin_objects().take(n),
        stack: seq![builtin_frame().take(n)],
        output: Seq::empty(),
        floats: Seq::empty(),
    }
}

/// The objects of a new environment: the builtins, then `t`, `'t`, `nil` and `'nil`.
pub open spec fn initial_objects() -> Seq<ObjV> {
    builtin_objects() + seq![
        ObjV::Atom(t_text()),
        ObjV::Quote(ObjectReference(17)),
        ObjV::Atom(nil_text()),
        ObjV::Quote(ObjectReference(19)),
    ]
}

/// The scope of a new environment: the builtins, then `t` and `nil` bound to
/// their own quotes.
pub open spec fn initial_frame() -> Seq<(Seq<char>, ObjectReference)> {
    builtin_frame() + seq![(t_text(), ObjectReference(18)), (nil_text(), ObjectReference(20))]
}

/// The environment that `Env::new` builds.
pub open spec fn initial_env() -> EnvV {
    EnvV {
        objects: initial_objects(),
        stack: seq![initial_frame()],
        output: Seq::empty(),
        floats: Seq::empty(),
    }
}

fn builtin_name(i: usize) -> (r: &'static str)
    requires
        i < 17,
    ensures
        r@ == builtin_names()[i as int],
{
    if i == 0 { "set" }
    else if i == 1 { "+" }
    else if i == 2 { "*" }
    else if i == 3 { "-" }
    else if i == 4 { "/" }
    else if i == 5 { "%" }
    else if i == 6 { "=" }
    else if i == 7 { "<" }
    else if i == 8 { ">" }
    else if i == 9 { "<=" }
    else if i == 10 { ">=" }
    else if i == 11 { "print" }
    else if i == 12 { "println" }
    else if i == 13 { "lambda" }
    else if i == 14 { "macro" }
    else if i == 15 { "defun" }
    else { "declare" }
}

fn builtin_object(i: usize) -> (r: LispObject)
    requires
        i < 17,
    ensures
        r@ == builtin_objects()[i as int],
{
    if i == 0 { LispObject::BuiltinDyadic(Dyadic::Assign) }
    else if i == 1 { LispObject::BuiltinDyadic(Dyadic::Add) }
    else if i == 2 { LispObject::BuiltinDyadic(Dyadic::Mul) }
    else if i == 3 { LispObject::BuiltinDyadic(Dyadic::Sub) }
    else if i == 4 { LispObject::BuiltinDyadic(Dyadic::Div) }
    else if i == 5 { LispObject::BuiltinDyadic(Dyadic::Mod) }
    else if i == 6 { LispObject::BuiltinDyadic(Dyadic::Eq) }
    else if i == 7 { LispObject::BuiltinDyadic(Dyadic::Lt) }
    else if i == 8 { LispObject::BuiltinDyadic(Dyadic::Gt) }
    else if i == 9 { LispObject::BuiltinDyadic(Dyadic::Le) }
    else if i == 10 { LispObject::BuiltinDyadic(Dyadic::Ge) }
    else if i == 11 { LispObject::BuiltinMonadic(Monadic::Print) }
    else if i == 12 { LispObject::BuiltinMonadic(Monadic::Println) }
    else if i == 13 { LispObject::BuiltinVarargMacro(VarargMacro::Lambda) }
    else if i == 14 { LispObject::BuiltinVarargMacro(VarargMacro::Macro) }
    else if i == 15 { LispObject::BuiltinVarargMacro(VarargMacro::Defun) }
    else { LispObject::BuiltinDyadic(Dyadic::Declare) }
}

} // verus!
