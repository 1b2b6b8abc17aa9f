//! Compile-time diagnostics: every failure of the lexer, the parser or the
//! bytecode generator is a `CompileError` carrying the offending grapheme
//! offset and a structured reason.

use vstd::prelude::*;

use crate::ir::Type;
use crate::syntax::TokenType;

verus! {

/// Why compilation failed.
#[derive(Debug)]
pub enum ErrorReason {
    SyntaxError { expected: Vec<TokenType> },
    NameError,
    MacroRedefinition { name: String },
    UndefinedMacro { name: String },
    UndefinedVar { name: String },
    NestedMacro,
    EmptyMacro,
    PipeNoParent,
    ArrayNoNewLine,
    ArrayNotPiped,
    TypeError { expected: Type, got: Type },
}

/// The mathematical value of an `ErrorReason`.
pub ghost enum ReasonV {
    SyntaxError { expected: Seq<TokenType> },
    NameError,
    MacroRedefinition { name: Seq<char> },
    UndefinedMacro { name: Seq<char> },
    UndefinedVar { name: Seq<char> },
    NestedMacro,
    EmptyMacro,
    PipeNoParent,
    ArrayNoNewLine,
    ArrayNotPiped,
    TypeError { expected: Type, got: Type },
}

impl View for ErrorReason {
    type V = ReasonV;

    open spec fn view(&self) -> ReasonV {
        match self {
            ErrorReason::SyntaxError { expected } => ReasonV::SyntaxError { expected: expected@ },
            ErrorReason::NameError => ReasonV::NameError,
            ErrorReason::MacroRedefinition { name } => ReasonV::MacroRedefinition { name: name@ },
            ErrorReason::UndefinedMacro { name } => ReasonV::UndefinedMacro { name: name@ },
            ErrorReason::UndefinedVar { name } => ReasonV::UndefinedVar { name: name@ },
            ErrorReason::NestedMacro => ReasonV::NestedMacro,
            ErrorReason::EmptyMacro => ReasonV::EmptyMacro,
            ErrorReason::PipeNoParent => ReasonV::PipeNoParent,
            ErrorReason::ArrayNoNewLine => ReasonV::ArrayNoNewLine,
            ErrorReason::ArrayNotPiped => ReasonV::ArrayNotPiped,
            ErrorReason::TypeError { expected, got } => ReasonV::TypeError {
                expected: *expected,
                got: *got,
            },
        }
    }
}

/// A compile-time failure: the grapheme offset it points at, and its reason.
#[derive(Debug)]
pub struct CompileError {
    first_char: usize,
    reason: ErrorReason,
}

/// The mathematical value of a `CompileError`.
#[verifier::ext_equal]
pub ghost struct ErrV {
    pub first_char: int,
    pub reason: ReasonV,
}

impl View for CompileError {
    type V = ErrV;

    closed spec fn view(&self) -> ErrV {
        ErrV { first_char: self.first_char as int, reason: self.reason@ }
    }
}

/// Shorthand spec constructors, one per reason, used by the contracts of the
/// lexer, the parser and the generator.
pub open spec fn syntax_err(first_char: int, expected: Seq<TokenType>) -> ErrV {
    ErrV { first_char, reason: ReasonV::SyntaxError { expected } }
}

pub open spec fn name_err(first_char: int) -> ErrV {
    ErrV { first_char, reason: ReasonV::NameError }
}

pub open spec fn undefined_var_err(first_char: int, name: Seq<char>) -> ErrV {
    ErrV { first_char, reason: ReasonV::UndefinedVar { name } }
}

pub open spec fn array_pipe_err(first_char: int) -> ErrV {
    ErrV { first_char, reason: ReasonV::ArrayNotPiped }
}

pub open spec fn pipe_no_parent_err(first_char: int) -> ErrV {
    ErrV { first_char, reason: ReasonV::PipeNoParent }
}

pub open spec fn invalid_array_err(first_char: int) -> ErrV {
    ErrV { first_char, reason: ReasonV::ArrayNoNewLine }
}

pub open spec fn macro_redefinition_err(first_char: int, name: Seq<char>) -> ErrV {
    ErrV { first_char, reason: ReasonV::MacroRedefinition { name } }
}

pub open spec fn undefined_macro_err(first_char: int, name: Seq<char>) -> ErrV {
    ErrV { first_char, reason: ReasonV::UndefinedMacro { name } }
}

pub open spec fn nested_macro_err(first_char: int) -> ErrV {
    ErrV { first_char, reason: ReasonV::NestedMacro }
}

pub open spec fn empty_macro_err(first_char: int) -> ErrV {
    ErrV { first_char, reason: ReasonV::EmptyMacro }
}

pub open spec fn type_err(first_char: int, expected: Type, got: Type) -> ErrV {
    ErrV { first_char, reason: ReasonV::TypeError { expected, got } }
}

impl CompileError {
    /// The grapheme offset the diagnostic points at.
    pub fn offset(&self) -> (r: usize)
        ensures
            r as int == self@.first_char,
    {
        self.first_char
    }

    /// The structured reason, for the caller that renders diagnostics.
    pub fn reason(&self) -> (r: &ErrorReason)
        ensures
            r@ == self@.reason,
    {
        &self.reason
    }

    pub fn new_syntax(first_char: usize, expected: &[TokenType]) -> (r: CompileError)
        ensures
            r@ == syntax_err(first_char as int, expected@),
    {
        let mut v: Vec<TokenType> = Vec::new();
        let mut i: usize = 0;
        while i < expected.len()
            invariant
                i <= expected.len(),
                v@ == expected@.subrange(0, i as int),
            decreases expected.len() - i,
        {
            v.push(expected[i]);
            proof {
                assert(v@ =~= expected@.subrange(0, i + 1 as int));
            }
            i += 1;
        }
        proof {
            assert(v@ =~= expected@);
        }
        CompileError { first_char, reason: ErrorReason::SyntaxError { expected: v } }
    }

    pub fn new_name(first_char: usize) -> (r: CompileError)
        ensures
            r@ == name_err(first_char as int),
    {
        CompileError { first_char, reason: ErrorReason::NameError }
    }

    pub fn new_undefined_var(first_char: usize, name: String) -> (r: CompileError)
        ensures
            r@ == undefined_var_err(first_char as int, name@),
    {
        CompileError { first_char, reason: ErrorReason::UndefinedVar { name } }
    }

    pub fn new_array_pipe(first_char: usize) -> (r: CompileError)
        ensures
            r@ == array_pipe_err(first_char as int),
    {
        CompileError { first_char, reason: ErrorReason::ArrayNotPiped }
    }

    pub fn new_pipe_no_parent(first_char: usize) -> (r: CompileError)
        ensures
            r@ == pipe_no_parent_err(first_char as int),
    {
        CompileError { first_char, reason: ErrorReason::PipeNoParent }
    }

    pub fn new_invalid_array(first_char: usize) -> (r: CompileError)
        ensures
            r@ == invalid_array_err(first_char as int),
    {
        CompileError { first_char, reason: ErrorReason::ArrayNoNewLine }
    }

    pub fn new_macro_redefinition(first_char: usize, name: String) -> (r: CompileError)
        ensures
            r@ == macro_redefinition_err(first_char as int, name@),
    {
        CompileError { first_char, reason: ErrorReason::MacroRedefinition { name } }
    }

    pub fn new_undefined_macro(first_char: usize, name: String) -> (r: CompileError)
        ensures
            r@ == undefined_macro_err(first_char as int, name@),
    {
        CompileError { first_char, reason: ErrorReason::UndefinedMacro { name } }
    }

    pub fn new_nesetd_macro(first_char: usize) -> (r: CompileError)
        ensures
            r@ == nested_macro_err(first_char as int),
    {
        CompileError { first_char, reason: ErrorReason::NestedMacro }
    }

    pub fn new_empty_macro(first_char: usize) -> (r: CompileError)
        ensures
            r@ == empty_macro_err(first_char as int),
    {
        CompileError { first_char, reason: ErrorReason::EmptyMacro }
    }

    pub fn new_type_error(first_char: usize, expected: Type, got: Type) -> (r: CompileError)
        ensures
            r@ == type_err(first_char as int, expected, got),
    {
        CompileError { first_char, reason: ErrorReason::TypeError { expected, got } }
    }
}

} // verus!
