use vstd::prelude::*;
use crate::expr::ExprKind;
use crate::isa::{datatype, datatype_of, mnemonic, mnemonic_of, register, register_of};

verus! {

/// A lexeme handed over by the tokenizer, or a grammar symbol that the parser
/// pushes when it reduces (`Vals` .. `Instr`).
#[derive(Clone, Debug, PartialEq, Eq)]
pub enum Token {
    COMMENT,
    PLUS,
    MINUS,
    STAR,
    SLASH,
    PERCENT,
    AMPERSAND,
    PIPE,
    CARET,
    TILDA,
    LBR,
    RBR,
    COMMA,
    LSHIFT,
    RSHIFT,
    Number(i64),
    Reg(String),
    IName(String),
    DataType(String),
    Id(String),
    Label(String),
    EOI,
    Vals,
    Data,
    E,
    E1,
    E2,
    E3,
    E4,
    E5,
    E6,
    E7,
    E8,
    Instr,
}

/// The grammar category of a token: a token with its payload dropped.
#[derive(Clone, Copy, Debug, PartialEq, Eq, Structural)]
pub enum Sym {
    COMMENT,
    PLUS,
    MINUS,
    STAR,
    SLASH,
    PERCENT,
    AMPERSAND,
    PIPE,
    CARET,
    TILDA,
    LBR,
    RBR,
    COMMA,
    LSHIFT,
    RSHIFT,
    Number,
    Reg,
    IName,
    DataType,
    Id,
    Label,
    EOI,
    Vals,
    Data,
    E,
    E1,
    E2,
    E3,
    E4,
    E5,
    E6,
    E7,
    E8,
    Instr,
}

pub open spec fn sym_of(t: Token) -> Sym {
    match t {
        Token::COMMENT => Sym::COMMENT,
        Token::PLUS => Sym::PLUS,
        Token::MINUS => Sym::MINUS,
        Token::STAR => Sym::STAR,
        Token::SLASH => Sym::SLASH,
        Token::PERCENT => Sym::PERCENT,
        Token::AMPERSAND => Sym::AMPERSAND,
        Token::PIPE => Sym::PIPE,
        Token::CARET => Sym::CARET,
        Token::TILDA => Sym::TILDA,
        Token::LBR => Sym::LBR,
        Token::RBR => Sym::RBR,
        Token::COMMA => Sym::COMMA,
        Token::LSHIFT => Sym::LSHIFT,
        Token::RSHIFT => Sym::RSHIFT,
        Token::Number(_) => Sym::Number,
        Token::Reg(_) => Sym::Reg,
        Token::IName(_) => Sym::IName,
        Token::DataType(_) => Sym::DataType,
        Token::Id(_) => Sym::Id,
        Token::Label(_) => Sym::Label,
        Token::EOI => Sym::EOI,
        Token::Vals => Sym::Vals,
        Token::Data => Sym::Data,
        Token::E => Sym::E,
        Token::E1 => Sym::E1,
        Token::E2 => Sym::E2,
        Token::E3 => Sym::E3,
        Token::E4 => Sym::E4,
        Token::E5 => Sym::E5,
        Token::E6 => Sym::E6,
        Token::E7 => Sym::E7,
        Token::E8 => Sym::E8,
        Token::Instr => Sym::Instr,
    }
}

/// The categories of a sequence of tokens, in order.
pub open spec fn syms_of(s: Seq<Token>) -> Seq<Sym> {
    s.map_values(|t: Token| sym_of(t))
}

impl Token {
    /// The grammar category of this token.
    pub fn sym(&self) -> (r: Sym)
        ensures
            r == sym_of(*self),
    {
        match self {
            Token::COMMENT => Sym::COMMENT,
            Token::PLUS => Sym::PLUS,
            Token::MINUS => Sym::MINUS,
            Token::STAR => Sym::STAR,
            Token::SLASH => Sym::SLASH,
            Token::PERCENT => Sym::PERCENT,
            Token::AMPERSAND => Sym::AMPERSAND,
            Token::PIPE => Sym::PIPE,
            Token::CARET => Sym::CARET,
            Token::TILDA => Sym::TILDA,
            Token::LBR => Sym::LBR,
            Token::RBR => Sym::RBR,
            Token::COMMA => Sym::COMMA,
            Token::LSHIFT => Sym::LSHIFT,
            Token::RSHIFT => Sym::RSHIFT,
            Token::Number(_) => Sym::Number,
            Token::Reg(_) => Sym::Reg,
            Token::IName(_) => Sym::IName,
            Token::DataType(_) => Sym::DataType,
            Token::Id(_) => Sym::Id,
            Token::Label(_) => Sym::Label,
            Token::EOI => Sym::EOI,
            Token::Vals => Sym::Vals,
            Token::Data => Sym::Data,
            Token::E => Sym::E,
            Token::E1 => Sym::E1,
            Token::E2 => Sym::E2,
            Token::E3 => Sym::E3,
            Token::E4 => Sym::E4,
            Token::E5 => Sym::E5,
            Token::E6 => Sym::E6,
            Token::E7 => Sym::E7,
            Token::E8 => Sym::E8,
            Token::Instr => Sym::Instr,
        }
    }
}

/// The leaf value that a lexeme carries: `None` where its text names no
/// register, mnemonic or data type; `Empty` for punctuation and grammar symbols.
pub open spec fn token_value_of(t: Token) -> Option<ExprKind> {
    match t {
        Token::Number(n) => Some(ExprKind::Number(n)),
        Token::Reg(s) => match register_of(s@) {
            Some(r) => Some(ExprKind::Reg(r)),
            None => None,
        },
        Token::IName(s) => match mnemonic_of(s@) {
            Some((op, class)) => Some(ExprKind::IName(op, class)),
            None => None,
        },
        Token::DataType(s) => match datatype_of(s@) {
            Some(w) => Some(ExprKind::DType(w)),
            None => None,
        },
        Token::Id(s) => Some(ExprKind::Id(s)),
        Token::Label(s) => Some(ExprKind::Label(s)),
        _ => Some(ExprKind::Empty),
    }
}

/// The leaf value of a lexeme.
pub fn token_value(tok: &Token) -> (r: Option<ExprKind>)
    ensures
        r == token_value_of(*tok),
{
    match tok {
        Token::Number(n) => Some(ExprKind::Number(*n)),
        Token::Reg(s) => match register(s.as_str()) {
            Some(r) => Some(ExprKind::Reg(r)),
            None => None,
        },
        Token::IName(s) => match mnemonic(s.as_str()) {
            Some((op, class)) => Some(ExprKind::IName(op, class)),
            None => None,
        },
        Token::DataType(s) => match datatype(s.as_str()) {
            Some(w) => Some(ExprKind::DType(w)),
            None => None,
        },
        Token::Id(s) => Some(ExprKind::Id(s.clone())),
        Token::Label(s) => Some(ExprKind::Label(s.clone())),
        _ => Some(ExprKind::Empty),
    }
}

} // verus!
