//! The errors that evaluation reports.
use vstd::prelude::*;

use crate::small::{name_text, Name};
use crate::show::debug_text;
use crate::text::push_str;
use crate::tree::{opt_type_view, LispType, TypeV};

verus! {

/// Why evaluation stopped.
#[derive(Debug, PartialEq)]
pub enum RuntimeError {
    UndefinedVariable(Name),
    TypeError { expected: Option<LispType>, actual: Option<LispType> },
    TooManyArguments,
    NoCurrying,
    TooManyArgumentsMacro,
    NoCurryingMacro,
    DivisionByZero,
    AssignmentToNonVariable,
    BrokenLambda { msg: &'static str },
    BrokenMacro { msg: &'static str },
    StackOverflow,
    UnquoteOutsideQuasiquote,
}

/// What an error is.
pub enum ErrV {
    UndefinedVariable(Seq<char>),
    TypeError { expected: Option<TypeV>, actual: Option<TypeV> },
    TooManyArguments,
    NoCurrying,
    TooManyArgumentsMacro,
    NoCurryingMacro,
    DivisionByZero,
    AssignmentToNonVariable,
    BrokenLambda(Seq<char>),
    BrokenMacro(Seq<char>),
    StackOverflow,
    UnquoteOutsideQuasiquote,
}

impl View for RuntimeError {
    type V = ErrV;

    open spec fn view(&self) -> ErrV {
        match self {
            RuntimeError::UndefinedVariable(n) => ErrV::UndefinedVariable(name_text(*n)),
            RuntimeError::TypeError { expected, actual } => ErrV::TypeError {
                expected: opt_type_view(*expected),
                actual: opt_type_view(*actual),
            },
            RuntimeError::TooManyArguments => ErrV::TooManyArguments,
            RuntimeError::NoCurrying => ErrV::NoCurrying,
            RuntimeError::TooManyArgumentsMacro => ErrV::TooManyArgumentsMacro,
            RuntimeError::NoCurryingMacro => ErrV::NoCurryingMacro,
            RuntimeError::DivisionByZero => ErrV::DivisionByZero,
            RuntimeError::AssignmentToNonVariable => ErrV::AssignmentToNonVariable,
            RuntimeError::BrokenLambda { msg } => ErrV::BrokenLambda(msg@),
            RuntimeError::BrokenMacro { msg } => ErrV::BrokenMacro(msg@),
            RuntimeError::StackOverflow => ErrV::StackOverflow,
            RuntimeError::UnquoteOutsideQuasiquote => ErrV::UnquoteOutsideQuasiquote,
        }
    }
}

/// The debug form of a type: the name of its variant, a named type with its name in quotes.
pub open spec fn type_debug_text(t: TypeV) -> Seq<char> {
    match t {
        TypeV::Named(s) => "Named("@ + debug_text(s) + ")"@,
        TypeV::Atom => "Atom"@,
        TypeV::Integer => "Integer"@,
        TypeV::Float => "Float"@,
        TypeV::Pair => "Pair"@,
        TypeV::Array => "Array"@,
        TypeV::Function => "Function"@,
        TypeV::String => "String"@,
        TypeV::Code => "Code"@,
        TypeV::Macro => "Macro"@,
    }
}

/// The debug form of an optional type.
pub open spec fn opt_type_debug_text(t: Option<TypeV>) -> Seq<char> {
    match t {
        Some(t) => "Some("@ + type_debug_text(t) + ")"@,
        None => "None"@,
    }
}

/// The message of an error.
pub open spec fn error_text(e: ErrV) -> Seq<char> {
    match e {
        ErrV::UndefinedVariable(n) => "Undefined variable: "@ + debug_text(n),
        ErrV::TypeError { expected, actual } => "Type error: "@ + opt_type_debug_text(expected)
            + " ≠ "@ + opt_type_debug_text(actual),
        ErrV::TooManyArguments => "Too many arguments"@,
        ErrV::NoCurrying => "alisp doesn't support curried functions (= not enough arguments in function call)"@,
        ErrV::TooManyArgumentsMacro => "Too many arguments in macro"@,
        ErrV::NoCurryingMacro => "alisp doesn't support curried macros (= not enough arguments in macro call)"@,
        ErrV::DivisionByZero => "Division by zero"@,
        ErrV::AssignmentToNonVariable => "Assignment to non-identifier"@,
        ErrV::BrokenLambda(m) => "Invalid lambda construction: "@ + m,
        ErrV::BrokenMacro(m) => "Invalid macro construction: "@ + m,
        ErrV::StackOverflow => "Stack overflow"@,
        ErrV::UnquoteOutsideQuasiquote => "Unquote outside of a quasiquote"@,
    }
}

fn write_type_debug(out: &mut String, t: &LispType)
    ensures
        final(out)@ == old(out)@ + type_debug_text(t@),
{
    match t {
        LispType::Named(n) => {
            push_str(out, "Named(");
            let q = crate::show::debug_quoted(n.as_str());
            push_str(out, q.as_str());
            push_str(out, ")");
            assert(final(out)@ =~= old(out)@ + type_debug_text(t@));
        },
        LispType::Atom => push_str(out, "Atom"),
        LispType::Integer => push_str(out, "Integer"),
        LispType::Float => push_str(out, "Float"),
        LispType::Pair => push_str(out, "Pair"),
        LispType::Array => push_str(out, "Array"),
        LispType::Function => push_str(out, "Function"),
        LispType::String => push_str(out, "String"),
        LispType::Code => push_str(out, "Code"),
        LispType::Macro => push_str(out, "Macro"),
    }
}

pub(crate) fn write_opt_type_debug(out: &mut String, t: &Option<LispType>)
    ensures
        final(out)@ == old(out)@ + opt_type_debug_text(opt_type_view(*t)),
{
    match t {
        Some(t) => {
            push_str(out, "Some(");
            write_type_debug(out, t);
            push_str(out, ")");
            assert(final(out)@ =~= old(out)@ + opt_type_debug_text(opt_type_view(Some(*t))));
        },
        None => push_str(out, "None"),
    }
}

impl RuntimeError {
    /// The message of the error.
    pub fn to_text(&self) -> (r: String)
        ensures
            r@ == error_text(self@),
    {
        let mut s = String::new();
        match self {
            RuntimeError::UndefinedVariable(n) => {
                push_str(&mut s, "Undefined variable: ");
                let q = crate::show::debug_quoted(n.as_str());
                push_str(&mut s, q.as_str());
            },
            RuntimeError::TypeError { expected, actual } => {
                push_str(&mut s, "Type error: ");
                write_opt_type_debug(&mut s, expected);
                push_str(&mut s, " ≠ ");
                write_opt_type_debug(&mut s, actual);
                assert(s@ =~= error_text(self@));
            },
            RuntimeError::TooManyArguments => push_str(&mut s, "Too many arguments"),
            RuntimeError::NoCurrying => push_str(
                &mut s,
                "alisp doesn't support curried functions (= not enough arguments in function call)",
            ),
            RuntimeError::TooManyArgumentsMacro => push_str(&mut s, "Too many arguments in macro"),
            RuntimeError::NoCurryingMacro => push_str(
                &mut s,
                "alisp doesn't support curried macros (= not enough arguments in macro call)",
            ),
            RuntimeError::DivisionByZero => push_str(&mut s, "Division by zero"),
            RuntimeError::AssignmentToNonVariable => push_str(&mut s, "Assignment to non-identifier"),
            RuntimeError::BrokenLambda { msg } => {
                push_str(&mut s, "Invalid lambda construction: ");
                push_str(&mut s, msg);
            },
            RuntimeError::BrokenMacro { msg } => {
                push_str(&mut s, "Invalid macro construction: ");
                push_str(&mut s, msg);
            },
            RuntimeError::StackOverflow => push_str(&mut s, "Stack overflow"),
            RuntimeError::UnquoteOutsideQuasiquote => push_str(&mut s, "Unquote outside of a quasiquote"),
        }
        assert(s@ =~= error_text(self@));
        s
    }
}

} // verus!
