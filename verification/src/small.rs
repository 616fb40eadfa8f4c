//! Inline-storage containers from `smallstr` and `smallvec`.
//!
//! Each container is held in a private field of a struct whose body Verus
//! does not see; what it holds is given a name, and every operation that the
//! interpreter uses goes through a function whose contract speaks of that name.
use vstd::prelude::*;

use crate::tree::{LispParseTree, LispType, TreeV, TypeV};

verus! {

/// An identifier: a string of at most a few bytes stored inline.
#[verifier::external_body]
#[derive(PartialEq, Eq, Debug, Hash)]
pub struct Name {
    inner: smallstr::SmallString<[u8; 23]>,
}

/// The characters of a `Name`.
pub uninterp spec fn name_text(n: Name) -> Seq<char>;

impl View for Name {
    type V = Seq<char>;

    open spec fn view(&self) -> Seq<char> {
        name_text(*self)
    }
}

impl Name {
    /// Builds a name from a string slice with `smallstr::SmallString::from_str`,
    /// which copies the bytes of `s`: the name holds exactly the characters of `s`.
    #[verifier::external_body]
    pub fn new(s: &str) -> (r: Name)
        ensures
            name_text(r) == s@,
    {
        Name { inner: smallstr::SmallString::from_str(s) }
    }

    /// The characters of the name, through `smallstr::SmallString::as_str`.
    #[verifier::external_body]
    pub fn as_str(&self) -> (r: &str)
        ensures
            r@ == name_text(*self),
    {
        self.inner.as_str()
    }

    /// A copy through `smallstr::SmallString::clone`, which copies the bytes.
    #[verifier::external_body]
    pub fn duplicate(&self) -> (r: Name)
        ensures
            name_text(r) == name_text(*self),
    {
        Name { inner: self.inner.clone() }
    }

    /// Byte-wise comparison through `PartialEq<str>` of `smallstr::SmallString`;
    /// two valid UTF-8 strings have equal bytes exactly when they have equal characters.
    #[verifier::external_body]
    pub(crate) fn is(&self, s: &str) -> (r: bool)
        ensures
            r == (name_text(*self) == s@),
    {
        self.inner == *s
    }

    /// Byte-wise comparison of two names through `PartialEq` of `smallstr::SmallString`.
    #[verifier::external_body]
    pub(crate) fn same(&self, other: &Name) -> (r: bool)
        ensures
            r == (name_text(*self) == name_text(*other)),
    {
        self.inner == other.inner
    }
}

impl Clone for Name {
    fn clone(&self) -> Self {
        self.duplicate()
    }
}

/// A typed parameter: its name and its optional type.
pub type TypedParam = (Name, Option<LispType>);

pub open spec fn typed_param_view(p: TypedParam) -> (Seq<char>, Option<TypeV>) {
    (p.0@, match p.1 {
        Some(t) => Some(t@),
        None => None,
    })
}

/// A short list of typed parameters held in a `smallvec::SmallVec`.
#[verifier::external_body]
#[derive(PartialEq, Debug)]
pub struct TypedParams {
    inner: smallvec::SmallVec<[TypedParam; 1]>,
}

/// The parameters that a `TypedParams` holds, in order.
pub uninterp spec fn typed_params_items(p: TypedParams) -> Seq<TypedParam>;

impl View for TypedParams {
    type V = Seq<(Seq<char>, Option<TypeV>)>;

    open spec fn view(&self) -> Seq<(Seq<char>, Option<TypeV>)> {
        typed_params_items(*self).map_values(|p: TypedParam| typed_param_view(p))
    }
}

impl TypedParams {
    /// `smallvec::SmallVec::from_vec`: the list holds the items of `v`, in order.
    #[verifier::external_body]
    pub fn from_vec(v: Vec<TypedParam>) -> (r: TypedParams)
        ensures
            typed_params_items(r) == v@,
    {
        TypedParams { inner: smallvec::SmallVec::from_vec(v) }
    }

    /// The number of items, through `smallvec::SmallVec::len`.
    #[verifier::external_body]
    pub fn len(&self) -> (r: usize)
        ensures
            r == typed_params_items(*self).len(),
    {
        self.inner.len()
    }

    /// The item at `i`, through indexing of the slice that the list derefs to.
    #[verifier::external_body]
    pub fn get(&self, i: usize) -> (r: &TypedParam)
        requires
            i < typed_params_items(*self).len(),
        ensures
            *r == typed_params_items(*self)[i as int],
    {
        &self.inner[i]
    }

    /// `Clone` of `smallvec::SmallVec`, which clones each item (a name and a type,
    /// whose clones keep their characters and variants).
    #[verifier::external_body]
    pub(crate) fn duplicate(&self) -> (r: TypedParams)
        ensures
            typed_params_items(r).map_values(|p: TypedParam| typed_param_view(p))
                == typed_params_items(*self).map_values(|p: TypedParam| typed_param_view(p)),
    {
        TypedParams { inner: self.inner.clone() }
    }
}

impl Clone for TypedParams {
    fn clone(&self) -> Self {
        self.duplicate()
    }
}

/// A short list of names held in a `smallvec::SmallVec`.
#[verifier::external_body]
#[derive(PartialEq, Debug)]
pub struct Names {
    inner: smallvec::SmallVec<[Name; 1]>,
}

/// The names that a `Names` holds, in order.
pub uninterp spec fn names_items(p: Names) -> Seq<Name>;

impl View for Names {
    type V = Seq<Seq<char>>;

    open spec fn view(&self) -> Seq<Seq<char>> {
        names_items(*self).map_values(|n: Name| name_text(n))
    }
}

impl Names {
    /// `smallvec::SmallVec::from_vec`: the list holds the items of `v`, in order.
    #[verifier::external_body]
    pub fn from_vec(v: Vec<Name>) -> (r: Names)
        ensures
            names_items(r) == v@,
    {
        Names { inner: smallvec::SmallVec::from_vec(v) }
    }

    /// The number of items, through `smallvec::SmallVec::len`.
    #[verifier::external_body]
    pub fn len(&self) -> (r: usize)
        ensures
            r == names_items(*self).len(),
    {
        self.inner.len()
    }

    /// The item at `i`, through indexing of the slice that the list derefs to.
    #[verifier::external_body]
    pub fn get(&self, i: usize) -> (r: &Name)
        requires
            i < names_items(*self).len(),
        ensures
            *r == names_items(*self)[i as int],
    {
        &self.inner[i]
    }

    /// `Clone` of `smallvec::SmallVec`, which clones each name.
    #[verifier::external_body]
    pub(crate) fn duplicate(&self) -> (r: Names)
        ensures
            names_items(r).map_values(|n: Name| name_text(n))
                == names_items(*self).map_values(|n: Name| name_text(n)),
    {
        Names { inner: self.inner.clone() }
    }
}

impl Clone for Names {
    fn clone(&self) -> Self {
        self.duplicate()
    }
}

/// A short list of parse trees held in a `smallvec::SmallVec`.
#[verifier::external_body]
#[derive(PartialEq, Debug)]
pub struct TreeList {
    inner: smallvec::SmallVec<[LispParseTree; 1]>,
}

/// The trees that a `TreeList` holds, in order.
pub uninterp spec fn tree_list_items(p: TreeList) -> Seq<LispParseTree>;

impl View for TreeList {
    type V = Seq<TreeV>;

    open spec fn view(&self) -> Seq<TreeV> {
        tree_list_items(*self).map_values(|t: LispParseTree| t@)
    }
}

impl TreeList {
    /// `smallvec::SmallVec::from_vec`: the list holds the items of `v`, in order.
    #[verifier::external_body]
    pub(crate) fn from_vec(v: Vec<LispParseTree>) -> (r: TreeList)
        ensures
            tree_list_items(r) == v@,
    {
        TreeList { inner: smallvec::SmallVec::from_vec(v) }
    }

    /// The number of items, through `smallvec::SmallVec::len`.
    #[verifier::external_body]
    pub(crate) fn len(&self) -> (r: usize)
        ensures
            r == tree_list_items(*self).len(),
    {
        self.inner.len()
    }

    /// The item at `i`, through indexing of the slice that the list derefs to.
    #[verifier::external_body]
    pub(crate) fn get(&self, i: usize) -> (r: &LispParseTree)
        requires
            i < tree_list_items(*self).len(),
        ensures
            *r == tree_list_items(*self)[i as int],
    {
        &self.inner[i]
    }

    /// The items, in order, in a `Vec`: each a copy of the tree it holds.
    pub fn into_vec(self) -> (r: Vec<LispParseTree>)
        ensures
            r@.map_values(|t: LispParseTree| t@) == self@,
    {
        let mut out: Vec<LispParseTree> = Vec::new();
        let mut i: usize = 0;
        while i < self.len()
            invariant
                i <= tree_list_items(self).len(),
                out@.map_values(|t: LispParseTree| t@) == self@.take(i as int),
            decreases tree_list_items(self).len() - i,
        {
            let t = self.get(i).duplicate();
            let ghost before = out@;
            out.push(t);
            proof {
                assert(out@ == before.push(t));
                assert(self@[i as int] == tree_list_items(self)[i as int]@);
                assert(out@.map_values(|t: LispParseTree| t@) =~= before.map_values(|t: LispParseTree| t@).push(t@));
                assert(out@.map_values(|t: LispParseTree| t@) =~= self@.take(i + 1));
            }
            i = i + 1;
        }
        assert(self@.take(i as int) =~= self@);
        out
    }
}

} // verus!
