//! Floating-point work, which this library leaves to its caller.
use vstd::prelude::*;

use crate::text::{push_char, push_str};

verus! {

/// The four arithmetic operations that the numeric builtins apply.
#[derive(Clone, Copy, PartialEq, Eq, Debug, Structural)]
pub enum ArithOp {
    Add,
    Sub,
    Mul,
    Div,
}

/// The five comparisons that the numeric builtins apply.
#[derive(Clone, Copy, PartialEq, Eq, Debug, Structural)]
pub enum CompareOp {
    Eq,
    Lt,
    Gt,
    Le,
    Ge,
}

/// The characters of a text, one after another. This is how a literal's text
/// is named in the contract of `FloatOps::from_literal`: two values of `Chars`
/// are equal just when they hold the same characters in the same order.
pub enum Chars {
    End,
    Then(char, Box<Chars>),
}

/// The characters of `s`, as a `Chars`.
pub open spec fn chars_of(s: Seq<char>) -> Chars
    decreases s.len(),
{
    if s.len() == 0 {
        Chars::End
    } else {
        Chars::Then(s[0], Box::new(chars_of(s.drop_first())))
    }
}

impl Chars {
    /// The text made of these characters.
    pub fn text(&self) -> (r: String)
        ensures
            chars_of(r@) == *self,
        decreases self,
    {
        let mut out = String::new();
        match self {
            Chars::End => {
                assert(out@ =~= Seq::<char>::empty());
            },
            Chars::Then(c, rest) => {
                let tail = rest.text();
                push_char(&mut out, *c);
                push_str(&mut out, tail.as_str());
                assert(out@.drop_first() =~= tail@);
            },
        }
        out
    }
}

/// Operations on 64-bit IEEE-754 values, each given by its bit pattern.
///
/// Values of type `f64` never pass through this library: a float is carried as
/// the `u64` of its bits, and whatever must compute with one (reading a literal,
/// arithmetic, comparison, writing it out) is asked of the caller through this
/// trait. An implementation names what each of its operations gives by a spec
/// function of its own (in compiled code, an ordinary method that computes
/// it), and each operation returns just that: the same question, asked of the
/// same implementation, gets the same answer. Nothing more is assumed of the
/// answers.
pub trait FloatOps {
    /// The bits of the float that the literal `text` denotes.
    spec fn literal_of(&self, text: Chars) -> u64;

    /// The text in which the float with bits `bits` is written.
    spec fn text_of(&self, bits: u64) -> String;

    /// The bits of `x op y`.
    spec fn arith_of(&self, op: ArithOp, x: u64, y: u64) -> u64;

    /// Whether `x op y` holds.
    spec fn compare_of(&self, op: CompareOp, x: u64, y: u64) -> bool;

    /// The bits of the float that a literal such as `-2.44` denotes.
    fn from_literal(&self, text: &str) -> (b: u64)
        ensures
            b == self.literal_of(chars_of(text@)),
    ;

    /// The text in which a float is written out.
    fn to_text(&self, bits: u64) -> (t: String)
        ensures
            t@ == self.text_of(bits)@,
    ;

    /// The bits of `x op y`.
    fn arith(&self, op: ArithOp, x: u64, y: u64) -> (b: u64)
        ensures
            b == self.arith_of(op, x, y),
    ;

    /// Whether `x op y` holds.
    fn compare(&self, op: CompareOp, x: u64, y: u64) -> (b: bool)
        ensures
            b == self.compare_of(op, x, y),
    ;
}

} // verus!
