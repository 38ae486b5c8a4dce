use vstd::prelude::*;

verus! {

/// A half-open byte range `start..end` of the source text.
#[derive(Clone, Copy, Debug, PartialEq, Eq, Structural)]
pub struct Span {
    pub start: usize,
    pub end: usize,
}

/// The fatal failures of an assembly run.
#[derive(Debug, PartialEq, Eq)]
pub enum AsmError {
    /// A token whose text names no register, mnemonic or data type.
    LexicalError(Span),
    /// No shift or reduce applies at this token, or it is not one the parser expected.
    SyntaxError(Span),
    /// An identifier that no label defines.
    UnresolvedLabel(String),
    /// A division or remainder whose divisor evaluated to zero.
    DivisionByZero,
    /// An instruction whose operand count differs from its opcode's operand shape.
    MalformedOperandArity,
    /// An opcode with no declared operand shape.
    UnmappedOpcode(u8),
    /// A layout whose offsets do not fit in 64 bits.
    ImageTooLarge,
}

} // verus!
