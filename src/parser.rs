use vstd::prelude::*;
use crate::error::{AsmError, Span};
use crate::expr::{Expr, ExprKind, all_statements, all_values, valid_width, wf_statement, wf_value};
use crate::token::{Sym, Token, sym_of, syms_of, token_value, token_value_of};
use crate::isa::datatype_of;

verus! {

/// The tokens that a shift may consume.
#[derive(Clone, Copy, Debug, PartialEq, Eq, Structural)]
pub enum Expect {
    /// The start of a statement: a mnemonic, a data-type keyword or a label.
    Statement,
    /// An instruction operand: a register or the start of an expression.
    Operand,
    /// The start of an expression: `(`, a number, `~` or an identifier.
    Atom,
    /// `)` or a binary operator, after a parenthesised expression.
    CloseOrOperator,
    /// Exactly this token.
    Only(Sym),
}

/// The reductions of the grammar, each a fixed pattern of symbols on top of
/// the stack.
#[derive(Clone, Copy, Debug, PartialEq, Eq, Structural)]
pub enum Rule {
    /// `IName E , E , E` to an instruction of three operands.
    Instr3,
    /// `IName E , E` to an instruction of two operands.
    Instr2,
    /// `IName E` to an instruction of one operand.
    Instr1,
    /// `IName` to an instruction without operands.
    Instr0,
    /// `Vals , E` to a value list one longer.
    ValsPush,
    /// `E` to a value list of one.
    ValsStart,
    /// `DataType Vals` to a data directive.
    Data,
    Or,
    Xor,
    And,
    Lsh,
    Rsh,
    Sum,
    Sub,
    Mod,
    Mul,
    Div,
    /// `( E1 )` to an atom.
    Paren,
    /// `~ E7` to a unary level expression.
    Not,
    /// One symbol to the next looser level, keeping its value.
    Lift(Sym, Sym),
}

/// What the parser does next.
#[derive(Clone, Copy, Debug, PartialEq, Eq, Structural)]
pub enum Operation {
    /// No action applies: the end at end of input, a syntax error elsewhere.
    NOMATCH,
    /// Consume the lookahead, which must be one that `Expect` admits.
    SHIFT(Expect),
    /// Replace the given number of top symbols by the rule's result.
    REDUCE(usize, Rule),
}

pub open spec fn is_operator(s: Sym) -> bool {
    s == Sym::PIPE || s == Sym::CARET || s == Sym::AMPERSAND || s == Sym::LSHIFT || s == Sym::RSHIFT
        || s == Sym::PLUS || s == Sym::MINUS || s == Sym::PERCENT || s == Sym::STAR || s
        == Sym::SLASH
}

/// Whether a shift of `x` admits the token `s`.
pub open spec fn expects(x: Expect, s: Sym) -> bool {
    match x {
        Expect::Statement => s == Sym::IName || s == Sym::DataType || s == Sym::Label,
        Expect::Operand => s == Sym::Reg || s == Sym::LBR || s == Sym::Number || s == Sym::TILDA
            || s == Sym::Id,
        Expect::Atom => s == Sym::LBR || s == Sym::Number || s == Sym::TILDA || s == Sym::Id,
        Expect::CloseOrOperator => s == Sym::RBR || is_operator(s),
        Expect::Only(t) => s == t,
    }
}

/// Whether a shift of `x` admits the token `s`.
pub fn expects_sym(x: Expect, s: Sym) -> (r: bool)
    ensures
        r == expects(x, s),
{
    match x {
        Expect::Statement => s == Sym::IName || s == Sym::DataType || s == Sym::Label,
        Expect::Operand => s == Sym::Reg || s == Sym::LBR || s == Sym::Number || s == Sym::TILDA
            || s == Sym::Id,
        Expect::Atom => s == Sym::LBR || s == Sym::Number || s == Sym::TILDA || s == Sym::Id,
        Expect::CloseOrOperator => s == Sym::RBR || s == Sym::PIPE || s == Sym::CARET || s
            == Sym::AMPERSAND || s == Sym::LSHIFT || s == Sym::RSHIFT || s == Sym::PLUS || s
            == Sym::MINUS || s == Sym::PERCENT || s == Sym::STAR || s == Sym::SLASH,
        Expect::Only(t) => s == t,
    }
}

/// The binary operators of each precedence level, loosest first: `|`, `^`,
/// `&`, shifts, additive, multiplicative.
pub open spec fn binary_rule(level: Sym, op: Sym) -> Option<Rule> {
    if level == Sym::E1 && op == Sym::PIPE {
        Some(Rule::Or)
    } else if level == Sym::E2 && op == Sym::CARET {
        Some(Rule::Xor)
    } else if level == Sym::E3 && op == Sym::AMPERSAND {
        Some(Rule::And)
    } else if level == Sym::E4 && op == Sym::LSHIFT {
        Some(Rule::Lsh)
    } else if level == Sym::E4 && op == Sym::RSHIFT {
        Some(Rule::Rsh)
    } else if level == Sym::E5 && op == Sym::PLUS {
        Some(Rule::Sum)
    } else if level == Sym::E5 && op == Sym::MINUS {
        Some(Rule::Sub)
    } else if level == Sym::E6 && op == Sym::PERCENT {
        Some(Rule::Mod)
    } else if level == Sym::E6 && op == Sym::STAR {
        Some(Rule::Mul)
    } else if level == Sym::E6 && op == Sym::SLASH {
        Some(Rule::Div)
    } else {
        None
    }
}

fn binary_rule_of(level: Sym, op: Sym) -> (r: Option<Rule>)
    ensures
        r == binary_rule(level, op),
{
    if level == Sym::E1 && op == Sym::PIPE {
        Some(Rule::Or)
    } else if level == Sym::E2 && op == Sym::CARET {
        Some(Rule::Xor)
    } else if level == Sym::E3 && op == Sym::AMPERSAND {
        Some(Rule::And)
    } else if level == Sym::E4 && op == Sym::LSHIFT {
        Some(Rule::Lsh)
    } else if level == Sym::E4 && op == Sym::RSHIFT {
        Some(Rule::Rsh)
    } else if level == Sym::E5 && op == Sym::PLUS {
        Some(Rule::Sum)
    } else if level == Sym::E5 && op == Sym::MINUS {
        Some(Rule::Sub)
    } else if level == Sym::E6 && op == Sym::PERCENT {
        Some(Rule::Mod)
    } else if level == Sym::E6 && op == Sym::STAR {
        Some(Rule::Mul)
    } else if level == Sym::E6 && op == Sym::SLASH {
        Some(Rule::Div)
    } else {
        None
    }
}

/// The next looser level of a symbol that stands for a value: an atom is a
/// unary-level expression, each level is the next looser one, the loosest
/// is an operand `E`, and a register is an operand as it stands.
pub open spec fn lift_of(s: Sym) -> Option<Sym> {
    match s {
        Sym::Reg => Some(Sym::E),
        Sym::E1 => Some(Sym::E),
        Sym::E2 => Some(Sym::E1),
        Sym::E3 => Some(Sym::E2),
        Sym::E4 => Some(Sym::E3),
        Sym::E5 => Some(Sym::E4),
        Sym::E6 => Some(Sym::E5),
        Sym::E7 => Some(Sym::E6),
        Sym::E8 => Some(Sym::E7),
        Sym::Id => Some(Sym::E7),
        Sym::Number => Some(Sym::E7),
        _ => None,
    }
}

fn lift(s: Sym) -> (r: Option<Sym>)
    ensures
        r == lift_of(s),
{
    match s {
        Sym::Reg => Some(Sym::E),
        Sym::E1 => Some(Sym::E),
        Sym::E2 => Some(Sym::E1),
        Sym::E3 => Some(Sym::E2),
        Sym::E4 => Some(Sym::E3),
        Sym::E5 => Some(Sym::E4),
        Sym::E6 => Some(Sym::E5),
        Sym::E7 => Some(Sym::E6),
        Sym::E8 => Some(Sym::E7),
        Sym::Id => Some(Sym::E7),
        Sym::Number => Some(Sym::E7),
        _ => None,
    }
}

/// The `k`-th symbol from the top of the stack, the top being the first.
pub open spec fn at(s: Seq<Sym>, k: int) -> Sym {
    s[s.len() - k]
}

/// The grammar: the action for a stack of symbols and a lookahead. Longer
/// windows on top of the stack are tried first, and within a window the
/// rules in this order.
pub open spec fn decide(s: Seq<Sym>, la: Sym) -> Operation {
    let n = s.len();
    if n >= 6 && at(s, 6) == Sym::IName && at(s, 5) == Sym::E && at(s, 4) == Sym::COMMA && at(s, 3)
        == Sym::E && at(s, 2) == Sym::COMMA && at(s, 1) == Sym::E {
        Operation::REDUCE(6, Rule::Instr3)
    } else if n >= 5 && at(s, 5) == Sym::IName && at(s, 4) == Sym::E && at(s, 3) == Sym::COMMA
        && at(s, 2) == Sym::E && at(s, 1) == Sym::COMMA {
        Operation::SHIFT(Expect::Operand)
    } else if n >= 4 && at(s, 4) == Sym::IName && at(s, 3) == Sym::E && at(s, 2) == Sym::COMMA
        && at(s, 1) == Sym::E {
        if la == Sym::COMMA {
            Operation::SHIFT(Expect::Only(Sym::COMMA))
        } else {
            Operation::REDUCE(4, Rule::Instr2)
        }
    } else if n >= 3 && at(s, 3) == Sym::IName && at(s, 2) == Sym::E && at(s, 1) == Sym::COMMA {
        Operation::SHIFT(Expect::Operand)
    } else if n >= 3 && at(s, 3) == Sym::Vals && at(s, 2) == Sym::COMMA && at(s, 1) == Sym::E {
        Operation::REDUCE(3, Rule::ValsPush)
    } else if n >= 3 && at(s, 3) == Sym::DataType && at(s, 2) == Sym::Vals && at(s, 1)
        == Sym::COMMA {
        Operation::SHIFT(Expect::Atom)
    } else if n >= 3 && at(s, 3) == at(s, 1) && binary_rule(at(s, 3), at(s, 2)) is Some {
        Operation::REDUCE(3, binary_rule(at(s, 3), at(s, 2))->0)
    } else if n >= 3 && at(s, 3) == Sym::LBR && at(s, 2) == Sym::E1 && at(s, 1) == Sym::RBR {
        Operation::REDUCE(3, Rule::Paren)
    } else if n >= 2 && at(s, 2) == Sym::IName && at(s, 1) == Sym::E && la == Sym::COMMA {
        Operation::SHIFT(Expect::Only(Sym::COMMA))
    } else if n >= 2 && binary_rule(at(s, 2), at(s, 1)) is Some {
        Operation::SHIFT(Expect::Atom)
    } else if n >= 2 && at(s, 2) == Sym::LBR && at(s, 1) == Sym::E1 {
        Operation::SHIFT(Expect::CloseOrOperator)
    } else if n >= 2 && at(s, 2) == Sym::DataType && at(s, 1) == Sym::Vals {
        if la == Sym::COMMA {
            Operation::SHIFT(Expect::Only(Sym::COMMA))
        } else {
            Operation::REDUCE(2, Rule::Data)
        }
    } else if n >= 2 && at(s, 2) == Sym::TILDA && at(s, 1) == Sym::E7 {
        Operation::REDUCE(2, Rule::Not)
    } else if n >= 2 && at(s, 2) == Sym::IName && at(s, 1) == Sym::E {
        Operation::REDUCE(2, Rule::Instr1)
    } else if n >= 1 && at(s, 1) == Sym::IName && expects(Expect::Operand, la) {
        Operation::SHIFT(Expect::Operand)
    } else if n >= 1 && binary_rule(at(s, 1), la) is Some {
        Operation::SHIFT(Expect::Only(la))
    } else if n >= 1 && (at(s, 1) == Sym::LBR || at(s, 1) == Sym::DataType || at(s, 1)
        == Sym::TILDA) {
        Operation::SHIFT(Expect::Atom)
    } else if n >= 1 && at(s, 1) == Sym::E {
        Operation::REDUCE(1, Rule::ValsStart)
    } else if n >= 1 && lift_of(at(s, 1)) is Some {
        Operation::REDUCE(1, Rule::Lift(at(s, 1), lift_of(at(s, 1))->0))
    } else if n >= 1 && at(s, 1) == Sym::IName {
        Operation::REDUCE(1, Rule::Instr0)
    } else if la == Sym::EOI {
        Operation::NOMATCH
    } else {
        Operation::SHIFT(Expect::Statement)
    }
}

/// The category of the `k`-th token from the top of the stack.
fn top(stack: &Vec<Token>, k: usize) -> (r: Sym)
    requires
        1 <= k <= stack.len(),
    ensures
        r == at(syms_of(stack@), k as int),
{
    stack[stack.len() - k].sym()
}

/// The parser's next action for the symbols on `stack` and the lookahead.
pub fn reduce(stack: &Vec<Token>, lookahead: &Token) -> (r: Operation)
    ensures
        r == decide(syms_of(stack@), sym_of(*lookahead)),
{
    let n = stack.len();
    let la = lookahead.sym();
    proof {
        assert(syms_of(stack@).len() == n);
    }
    if n >= 6 && top(stack, 6) == Sym::IName && top(stack, 5) == Sym::E && top(stack, 4)
        == Sym::COMMA && top(stack, 3) == Sym::E && top(stack, 2) == Sym::COMMA && top(stack, 1)
        == Sym::E {
        Operation::REDUCE(6, Rule::Instr3)
    } else if n >= 5 && top(stack, 5) == Sym::IName && top(stack, 4) == Sym::E && top(stack, 3)
        == Sym::COMMA && top(stack, 2) == Sym::E && top(stack, 1) == Sym::COMMA {
        Operation::SHIFT(Expect::Operand)
    } else if n >= 4 && top(stack, 4) == Sym::IName && top(stack, 3) == Sym::E && top(stack, 2)
        == Sym::COMMA && top(stack, 1) == Sym::E {
        if la == Sym::COMMA {
            Operation::SHIFT(Expect::Only(Sym::COMMA))
        } else {
            Operation::REDUCE(4, Rule::Instr2)
        }
    } else if n >= 3 && top(stack, 3) == Sym::IName && top(stack, 2) == Sym::E && top(stack, 1)
        == Sym::COMMA {
        Operation::SHIFT(Expect::Operand)
    } else if n >= 3 && top(stack, 3) == Sym::Vals && top(stack, 2) == Sym::COMMA && top(stack, 1)
        == Sym::E {
        Operation::REDUCE(3, Rule::ValsPush)
    } else if n >= 3 && top(stack, 3) == Sym::DataType && top(stack, 2) == Sym::Vals && top(
        stack,
        1,
    ) == Sym::COMMA {
        Operation::SHIFT(Expect::Atom)
    } else if n >= 3 && top(stack, 3) == top(stack, 1) && binary_rule_of(
        top(stack, 3),
        top(stack, 2),
    ).is_some() {
        match binary_rule_of(top(stack, 3), top(stack, 2)) {
            Some(rule) => Operation::REDUCE(3, rule),
            None => Operation::NOMATCH,
        }
    } else if n >= 3 && top(stack, 3) == Sym::LBR && top(stack, 2) == Sym::E1 && top(stack, 1)
        == Sym::RBR {
        Operation::REDUCE(3, Rule::Paren)
    } else if n >= 2 && top(stack, 2) == Sym::IName && top(stack, 1) == Sym::E && la == Sym::COMMA {
        Operation::SHIFT(Expect::Only(Sym::COMMA))
    } else if n >= 2 && binary_rule_of(top(stack, 2), top(stack, 1)).is_some() {
        Operation::SHIFT(Expect::Atom)
    } else if n >= 2 && top(stack, 2) == Sym::LBR && top(stack, 1) == Sym::E1 {
        Operation::SHIFT(Expect::CloseOrOperator)
    } else if n >= 2 && top(stack, 2) == Sym::DataType && top(stack, 1) == Sym::Vals {
        if la == Sym::COMMA {
            Operation::SHIFT(Expect::Only(Sym::COMMA))
        } else {
            Operation::REDUCE(2, Rule::Data)
        }
    } else if n >= 2 && top(stack, 2) == Sym::TILDA && top(stack, 1) == Sym::E7 {
        Operation::REDUCE(2, Rule::Not)
    } else if n >= 2 && top(stack, 2) == Sym::IName && top(stack, 1) == Sym::E {
        Operation::REDUCE(2, Rule::Instr1)
    } else if n >= 1 && top(stack, 1) == Sym::IName && expects_sym(Expect::Operand, la) {
        Operation::SHIFT(Expect::Operand)
    } else if n >= 1 && binary_rule_of(top(stack, 1), la).is_some() {
        Operation::SHIFT(Expect::Only(la))
    } else if n >= 1 && (top(stack, 1) == Sym::LBR || top(stack, 1) == Sym::DataType || top(
        stack,
        1,
    ) == Sym::TILDA) {
        Operation::SHIFT(Expect::Atom)
    } else if n >= 1 && top(stack, 1) == Sym::E {
        Operation::REDUCE(1, Rule::ValsStart)
    } else if n >= 1 && lift(top(stack, 1)).is_some() {
        match lift(top(stack, 1)) {
            Some(to) => Operation::REDUCE(1, Rule::Lift(top(stack, 1), to)),
            None => Operation::NOMATCH,
        }
    } else if n >= 1 && top(stack, 1) == Sym::IName {
        Operation::REDUCE(1, Rule::Instr0)
    } else if la == Sym::EOI {
        Operation::NOMATCH
    } else {
        Operation::SHIFT(Expect::Statement)
    }
}

/// The symbols that a rule replaces, bottom first.
pub open spec fn rule_pattern(r: Rule) -> Seq<Sym> {
    match r {
        Rule::Instr3 => seq![Sym::IName, Sym::E, Sym::COMMA, Sym::E, Sym::COMMA, Sym::E],
        Rule::Instr2 => seq![Sym::IName, Sym::E, Sym::COMMA, Sym::E],
        Rule::Instr1 => seq![Sym::IName, Sym::E],
        Rule::Instr0 => seq![Sym::IName],
        Rule::ValsPush => seq![Sym::Vals, Sym::COMMA, Sym::E],
        Rule::ValsStart => seq![Sym::E],
        Rule::Data => seq![Sym::DataType, Sym::Vals],
        Rule::Or => seq![Sym::E1, Sym::PIPE, Sym::E1],
        Rule::Xor => seq![Sym::E2, Sym::CARET, Sym::E2],
        Rule::And => seq![Sym::E3, Sym::AMPERSAND, Sym::E3],
        Rule::Lsh => seq![Sym::E4, Sym::LSHIFT, Sym::E4],
        Rule::Rsh => seq![Sym::E4, Sym::RSHIFT, Sym::E4],
        Rule::Sum => seq![Sym::E5, Sym::PLUS, Sym::E5],
        Rule::Sub => seq![Sym::E5, Sym::MINUS, Sym::E5],
        Rule::Mod => seq![Sym::E6, Sym::PERCENT, Sym::E6],
        Rule::Mul => seq![Sym::E6, Sym::STAR, Sym::E6],
        Rule::Div => seq![Sym::E6, Sym::SLASH, Sym::E6],
        Rule::Paren => seq![Sym::LBR, Sym::E1, Sym::RBR],
        Rule::Not => seq![Sym::TILDA, Sym::E7],
        Rule::Lift(from, _) => seq![from],
    }
}

/// The symbol that a rule pushes.
pub open spec fn rule_result(r: Rule) -> Sym {
    match r {
        Rule::Instr3 | Rule::Instr2 | Rule::Instr1 | Rule::Instr0 => Sym::Instr,
        Rule::ValsPush | Rule::ValsStart => Sym::Vals,
        Rule::Data => Sym::Data,
        Rule::Or => Sym::E1,
        Rule::Xor => Sym::E2,
        Rule::And => Sym::E3,
        Rule::Lsh | Rule::Rsh => Sym::E4,
        Rule::Sum | Rule::Sub => Sym::E5,
        Rule::Mod | Rule::Mul | Rule::Div => Sym::E6,
        Rule::Paren => Sym::E8,
        Rule::Not => Sym::E7,
        Rule::Lift(_, to) => to,
    }
}

/// The rules that the grammar can select.
pub open spec fn valid_rule(r: Rule) -> bool {
    match r {
        Rule::Lift(from, to) => lift_of(from) == Some(to),
        _ => true,
    }
}

/// The value that stands beside a symbol on the parser's value stack.
pub open spec fn sym_ok(s: Sym, e: Expr) -> bool {
    match s {
        Sym::Number | Sym::Reg | Sym::Id | Sym::E | Sym::E1 | Sym::E2 | Sym::E3 | Sym::E4
        | Sym::E5 | Sym::E6 | Sym::E7 | Sym::E8 => wf_value(e),
        Sym::IName => e.kind is IName,
        Sym::DataType => match e.kind {
            ExprKind::DType(w) => valid_width(w),
            _ => false,
        },
        Sym::Vals => match e.kind {
            ExprKind::Vals(v) => all_values(v@),
            _ => false,
        },
        Sym::Label => e.kind is Label,
        Sym::Instr => match e.kind {
            ExprKind::Instruction(_, _, a) => all_values(a@),
            _ => false,
        },
        Sym::Data => match e.kind {
            ExprKind::Data(w, v) => valid_width(w) && all_values(v@),
            _ => false,
        },
        _ => true,
    }
}

/// Each value stands beside its symbol.
pub open spec fn stacks_agree(syms: Seq<Sym>, vals: Seq<Expr>) -> bool {
    &&& syms.len() == vals.len()
    &&& forall|i: int| 0 <= i < syms.len() ==> #[trigger] sym_ok(syms[i], vals[i])
}

/// A node built during parsing: the given kind and span, no size or offset yet.
pub open spec fn node(kind: ExprKind, start: usize, end: usize) -> Expr {
    Expr { kind, span: Span { start, end }, size: 0, offset: 0 }
}

/// `r` is the instruction that mnemonic node `head` makes with `args`.
pub open spec fn is_instruction(r: Expr, head: Expr, args: Seq<Expr>, end: usize) -> bool {
    match (head.kind, r.kind) {
        (ExprKind::IName(op, size), ExprKind::Instruction(op2, size2, a)) => op2 == op && size2
            == size && a@ == args && r.span == (Span { start: head.span.start, end }) && r.size
            == 0 && r.offset == 0,
        _ => false,
    }
}

/// The node of a binary operator rule over two operands.
pub open spec fn binary_node(rule: Rule, l: Expr, r: Expr) -> Expr {
    let (a, b) = (Box::new(l), Box::new(r));
    node(
        match rule {
            Rule::Or => ExprKind::Or(a, b),
            Rule::Xor => ExprKind::Xor(a, b),
            Rule::And => ExprKind::And(a, b),
            Rule::Lsh => ExprKind::Lsh(a, b),
            Rule::Rsh => ExprKind::Rsh(a, b),
            Rule::Sum => ExprKind::Sum(a, b),
            Rule::Sub => ExprKind::Sub(a, b),
            Rule::Mod => ExprKind::Mod(a, b),
            Rule::Mul => ExprKind::Mul(a, b),
            _ => ExprKind::Div(a, b),
        },
        l.span.start,
        r.span.end,
    )
}

/// The value that a reduction by `rule` builds from the values `v` of its
/// pattern: an instruction over the operand values, a value list extended
/// by one, a data directive over the list, an operator node over its
/// operands, the inner expression of a parenthesis, or the value unchanged
/// for a lift. Each spans from its first to its last part.
pub open spec fn rule_value(rule: Rule, v: Seq<Expr>, r: Expr) -> bool {
    let end = v.last().span.end;
    match rule {
        Rule::Instr3 => is_instruction(r, v[0], seq![v[1], v[3], v[5]], end),
        Rule::Instr2 => is_instruction(r, v[0], seq![v[1], v[3]], end),
        Rule::Instr1 => is_instruction(r, v[0], seq![v[1]], end),
        Rule::Instr0 => is_instruction(r, v[0], Seq::empty(), end),
        Rule::ValsPush => match (v[0].kind, r.kind) {
            (ExprKind::Vals(items), ExprKind::Vals(items2)) => items2@ == items@.push(v[2])
                && r.span == (Span { start: v[0].span.start, end }) && r.size == 0 && r.offset == 0,
            _ => false,
        },
        Rule::ValsStart => match r.kind {
            ExprKind::Vals(items) => items@ == seq![v[0]] && r.span == v[0].span && r.size == 0
                && r.offset == 0,
            _ => false,
        },
        Rule::Data => match (v[0].kind, v[1].kind, r.kind) {
            (ExprKind::DType(w), ExprKind::Vals(items), ExprKind::Data(w2, items2)) => w2 == w
                && items2@ == items@ && r.span == (Span { start: v[0].span.start, end }) && r.size
                == 0 && r.offset == 0,
            _ => false,
        },
        Rule::Paren => r == node(v[1].kind, v[0].span.start, end),
        Rule::Not => r == node(ExprKind::Not(Box::new(v[1])), v[0].span.start, end),
        Rule::Lift(_, _) => r == v[0],
        _ => r == binary_node(rule, v[0], v[2]),
    }
}

fn instruction(head: Expr, args: Vec<Expr>, end: usize) -> (r: Expr)
    requires
        head.kind is IName,
        all_values(args@),
    ensures
        sym_ok(Sym::Instr, r),
        is_instruction(r, head, args@, end),
{
    match head.kind {
        ExprKind::IName(op, size) => Expr {
            kind: ExprKind::Instruction(op, size, args),
            span: Span { start: head.span.start, end },
            size: 0,
            offset: 0,
        },
        _ => Expr::default(),
    }
}

fn binary(rule: Rule, l: Expr, r: Expr) -> (e: Expr)
    requires
        wf_value(l),
        wf_value(r),
    ensures
        wf_value(e),
        e == binary_node(rule, l, r),
{
    let span = Span { start: l.span.start, end: r.span.end };
    let (l, r) = (Box::new(l), Box::new(r));
    let kind = match rule {
        Rule::Or => ExprKind::Or(l, r),
        Rule::Xor => ExprKind::Xor(l, r),
        Rule::And => ExprKind::And(l, r),
        Rule::Lsh => ExprKind::Lsh(l, r),
        Rule::Rsh => ExprKind::Rsh(l, r),
        Rule::Sum => ExprKind::Sum(l, r),
        Rule::Sub => ExprKind::Sub(l, r),
        Rule::Mod => ExprKind::Mod(l, r),
        Rule::Mul => ExprKind::Mul(l, r),
        _ => ExprKind::Div(l, r),
    };
    Expr { kind, span, size: 0, offset: 0 }
}

/// Combines the values of a rule's pattern, bottom first, into the value of
/// its result.
pub fn apply_rule(rule: Rule, vals: Vec<Expr>) -> (r: Expr)
    requires
        valid_rule(rule),
        vals@.len() == rule_pattern(rule).len(),
        forall|i: int| 0 <= i < vals@.len() ==> #[trigger] sym_ok(rule_pattern(rule)[i], vals@[i]),
    ensures
        sym_ok(rule_result(rule), r),
        rule_value(rule, vals@, r),
{
    let mut vals = vals;
    let ghost v0 = vals@;
    let end = vals[vals.len() - 1].span.end;
    assert(forall|i: int| 0 <= i < v0.len() ==> sym_ok(rule_pattern(rule)[i], v0[i]));
    match rule {
        Rule::Instr3 => {
            assert(sym_ok(Sym::E, v0[5]) && sym_ok(Sym::E, v0[3]) && sym_ok(Sym::E, v0[1]));
            assert(sym_ok(Sym::IName, v0[0]));
            let c = vals.pop().unwrap();
            let _ = vals.pop();
            let b = vals.pop().unwrap();
            let _ = vals.pop();
            let a = vals.pop().unwrap();
            let head = vals.pop().unwrap();
            let args = vec![a, b, c];
            assert(args@ =~= seq![v0[1], v0[3], v0[5]]);
            assert(all_values(args@));
            instruction(head, args, end)
        },
        Rule::Instr2 => {
            assert(sym_ok(Sym::E, v0[3]) && sym_ok(Sym::E, v0[1]) && sym_ok(Sym::IName, v0[0]));
            let b = vals.pop().unwrap();
            let _ = vals.pop();
            let a = vals.pop().unwrap();
            let head = vals.pop().unwrap();
            let args = vec![a, b];
            assert(args@ =~= seq![v0[1], v0[3]]);
            assert(all_values(args@));
            instruction(head, args, end)
        },
        Rule::Instr1 => {
            assert(sym_ok(Sym::E, v0[1]) && sym_ok(Sym::IName, v0[0]));
            let a = vals.pop().unwrap();
            let head = vals.pop().unwrap();
            let args = vec![a];
            assert(args@ =~= seq![v0[1]]);
            assert(all_values(args@));
            instruction(head, args, end)
        },
        Rule::Instr0 => {
            assert(sym_ok(Sym::IName, v0[0]));
            let head = vals.pop().unwrap();
            let args: Vec<Expr> = Vec::new();
            assert(args@ =~= Seq::<Expr>::empty());
            instruction(head, args, end)
        },
        Rule::ValsPush => {
            assert(sym_ok(Sym::E, v0[2]) && sym_ok(Sym::Vals, v0[0]));
            let e = vals.pop().unwrap();
            let _ = vals.pop();
            let list = vals.pop().unwrap();
            match list.kind {
                ExprKind::Vals(mut items) => {
                    items.push(e);
                    assert(all_values(items@));
                    Expr {
                        kind: ExprKind::Vals(items),
                        span: Span { start: list.span.start, end },
                        size: 0,
                        offset: 0,
                    }
                },
                _ => Expr::default(),
            }
        },
        Rule::ValsStart => {
            assert(sym_ok(Sym::E, v0[0]));
            let e = vals.pop().unwrap();
            let span = e.span;
            let items = vec![e];
            assert(items@ =~= seq![v0[0]]);
            assert(all_values(items@));
            Expr { kind: ExprKind::Vals(items), span, size: 0, offset: 0 }
        },
        Rule::Data => {
            assert(sym_ok(Sym::Vals, v0[1]) && sym_ok(Sym::DataType, v0[0]));
            let list = vals.pop().unwrap();
            let head = vals.pop().unwrap();
            match (head.kind, list.kind) {
                (ExprKind::DType(w), ExprKind::Vals(items)) => Expr {
                    kind: ExprKind::Data(w, items),
                    span: Span { start: head.span.start, end },
                    size: 0,
                    offset: 0,
                },
                _ => Expr::default(),
            }
        },
        Rule::Paren => {
            assert(sym_ok(Sym::E1, v0[1]));
            let close = vals.pop().unwrap();
            let inner = vals.pop().unwrap();
            let open = vals.pop().unwrap();
            Expr {
                kind: inner.kind,
                span: Span { start: open.span.start, end: close.span.end },
                size: 0,
                offset: 0,
            }
        },
        Rule::Not => {
            assert(sym_ok(Sym::E7, v0[1]));
            let c = vals.pop().unwrap();
            let tilda = vals.pop().unwrap();
            Expr {
                kind: ExprKind::Not(Box::new(c)),
                span: Span { start: tilda.span.start, end },
                size: 0,
                offset: 0,
            }
        },
        Rule::Lift(_, _) => {
            assert(sym_ok(rule_pattern(rule)[0], v0[0]));
            vals.pop().unwrap()
        },
        _ => {
            assert(wf_value(v0[2]) && wf_value(v0[0]));
            let r = vals.pop().unwrap();
            let _ = vals.pop();
            let l = vals.pop().unwrap();
            binary(rule, l, r)
        },
    }
}

/// A measure of a grammar symbol that every reduction lowers.
pub open spec fn sym_weight(s: Sym) -> nat {
    match s {
        Sym::Vals | Sym::Instr | Sym::Data => 1,
        Sym::E | Sym::IName => 2,
        Sym::E1 | Sym::Reg => 3,
        Sym::E2 => 4,
        Sym::E3 => 5,
        Sym::E4 => 6,
        Sym::E5 => 7,
        Sym::E6 => 8,
        Sym::E7 => 9,
        _ => 10,
    }
}

pub open spec fn weight(s: Seq<Sym>) -> nat
    decreases s.len(),
{
    if s.len() == 0 {
        0
    } else {
        weight(s.drop_last()) + sym_weight(s.last())
    }
}

proof fn lemma_weight_split(s: Seq<Sym>, k: int)
    requires
        0 <= k <= s.len(),
    ensures
        weight(s) == weight(s.subrange(0, k)) + weight(s.subrange(k, s.len() as int)),
    decreases s.len(),
{
    if k == s.len() {
        assert(s.subrange(0, k) =~= s);
        assert(s.subrange(k, s.len() as int).len() == 0);
    } else {
        let d = s.drop_last();
        lemma_weight_split(d, k);
        assert(d.subrange(0, k) =~= s.subrange(0, k));
        let tail = s.subrange(k, s.len() as int);
        assert(tail.drop_last() =~= d.subrange(k, d.len() as int));
        assert(tail.last() == s.last());
    }
}

proof fn lemma_rule_lowers(r: Rule)
    requires
        valid_rule(r),
    ensures
        sym_weight(rule_result(r)) < weight(rule_pattern(r)),
{
    reveal_with_fuel(weight, 7);
}

/// A reduction that the grammar selects replaces exactly its rule's pattern.
proof fn lemma_decide_reduce(s: Seq<Sym>, la: Sym)
    requires
        decide(s, la) is REDUCE,
    ensures
        ({
            let (n, r) = (decide(s, la)->REDUCE_0, decide(s, la)->REDUCE_1);
            &&& valid_rule(r)
            &&& n == rule_pattern(r).len()
            &&& n <= s.len()
            &&& s.subrange(s.len() - n, s.len() as int) =~= rule_pattern(r)
        }),
{
    let n = decide(s, la)->REDUCE_0;
    let r = decide(s, la)->REDUCE_1;
    let top = s.subrange(s.len() - n, s.len() as int);
    assert(top.len() == rule_pattern(r).len());
    assert forall|i: int| 0 <= i < top.len() implies top[i] == rule_pattern(r)[i] by {
        assert(top[i] == at(s, n - i));
    }
}

/// What one run of the parser from a configuration ends in.
pub enum ParseOutcome {
    /// End of input with only statements on the stack.
    Accept(Seq<Sym>),
    /// A syntax error at the token of this index (the token count for the end).
    SyntaxAt(nat),
    /// A lexeme whose text does not name what its category says, at this index.
    LexicalAt(nat),
}

/// The lookahead at `pos`: end of input past the last token.
pub open spec fn lookahead_at(toks: Seq<Token>, pos: int) -> Sym {
    if 0 <= pos < toks.len() {
        sym_of(toks[pos])
    } else {
        Sym::EOI
    }
}

pub open spec fn is_statement_sym(s: Sym) -> bool {
    s == Sym::Instr || s == Sym::Data || s == Sym::Label
}

pub open spec fn all_statement_syms(s: Seq<Sym>) -> bool {
    forall|i: int| 0 <= i < s.len() ==> #[trigger] is_statement_sym(s[i])
}

/// The shift/reduce automaton, from a stack of symbols and the index of the
/// next token: shift where the grammar shifts a token that it expects,
/// reduce where it reduces, and stop where it finds no match.
pub open spec fn run(stack: Seq<Sym>, toks: Seq<Token>, pos: nat) -> ParseOutcome
    decreases (toks.len() - pos) as nat, weight(stack),
    via run_decreases
{
    let la = lookahead_at(toks, pos as int);
    match decide(stack, la) {
        Operation::NOMATCH => if la == Sym::EOI && all_statement_syms(stack) {
            ParseOutcome::Accept(stack)
        } else {
            ParseOutcome::SyntaxAt(pos)
        },
        Operation::SHIFT(x) => if pos < toks.len() && expects(x, la) {
            if token_value_of(toks[pos as int]) is Some {
                run(stack.push(la), toks, pos + 1)
            } else {
                ParseOutcome::LexicalAt(pos)
            }
        } else {
            ParseOutcome::SyntaxAt(pos)
        },
        Operation::REDUCE(n, r) => if n <= stack.len() {
            run(stack.subrange(0, stack.len() - n).push(rule_result(r)), toks, pos)
        } else {
            ParseOutcome::SyntaxAt(pos)
        },
    }
}

/// A reduction that the grammar selects makes the stack lighter.
proof fn lemma_reduce_lowers(stack: Seq<Sym>, la: Sym)
    requires
        decide(stack, la) is REDUCE,
    ensures
        ({
            let (n, r) = (decide(stack, la)->REDUCE_0, decide(stack, la)->REDUCE_1);
            n <= stack.len() && weight(stack.subrange(0, stack.len() - n).push(rule_result(r)))
                < weight(stack)
        }),
{
    let n = decide(stack, la)->REDUCE_0;
    let r = decide(stack, la)->REDUCE_1;
    lemma_decide_reduce(stack, la);
    lemma_rule_lowers(r);
    let rest = stack.subrange(0, stack.len() - n);
    lemma_weight_split(stack, stack.len() - n);
    let next = rest.push(rule_result(r));
    assert(next.drop_last() =~= rest);
}

#[via_fn]
proof fn run_decreases(stack: Seq<Sym>, toks: Seq<Token>, pos: nat) {
    let la = lookahead_at(toks, pos as int);
    if decide(stack, la) is REDUCE {
        lemma_reduce_lowers(stack, la);
    }
}

/// The leaf node of the token at `pos`.
pub open spec fn leaf(toks: Seq<(Token, Span)>, pos: int) -> Expr {
    Expr { kind: token_value_of(toks[pos].0)->0, span: toks[pos].1, size: 0, offset: 0 }
}

/// `out` is the value stack that the automaton ends with, run from the
/// symbol stack `syms` with the values `vals` beside it and the token at
/// `pos` next: a shift pushes the token's leaf, a reduction the value that
/// its rule builds.
pub open spec fn run_values(
    syms: Seq<Sym>,
    vals: Seq<Expr>,
    toks: Seq<(Token, Span)>,
    pos: nat,
    out: Seq<Expr>,
) -> bool
    decreases (toks.len() - pos) as nat, weight(syms),
    via run_values_decreases
{
    let la = lookahead_at(tokens_of(toks), pos as int);
    match decide(syms, la) {
        Operation::NOMATCH => out == vals,
        Operation::SHIFT(x) => if pos < toks.len() && expects(x, la) && token_value_of(
            toks[pos as int].0,
        ) is Some {
            run_values(syms.push(la), vals.push(leaf(toks, pos as int)), toks, pos + 1, out)
        } else {
            out == vals
        },
        Operation::REDUCE(n, rule) => if n <= syms.len() && n <= vals.len() {
            exists|e: Expr|
                #[trigger] rule_value(rule, vals.subrange(vals.len() - n, vals.len() as int), e)
                    && run_values(
                    syms.subrange(0, syms.len() - n).push(rule_result(rule)),
                    vals.subrange(0, vals.len() - n).push(e),
                    toks,
                    pos,
                    out,
                )
        } else {
            out == vals
        },
    }
}

#[via_fn]
proof fn run_values_decreases(
    syms: Seq<Sym>,
    vals: Seq<Expr>,
    toks: Seq<(Token, Span)>,
    pos: nat,
    out: Seq<Expr>,
) {
    let la = lookahead_at(tokens_of(toks), pos as int);
    if decide(syms, la) is REDUCE {
        lemma_reduce_lowers(syms, la);
    }
}

/// The tokens that a shift can consume: no grammar symbol of the parser's
/// own, and not the end of input.
pub open spec fn is_shiftable(s: Sym) -> bool {
    s == Sym::IName || s == Sym::DataType || s == Sym::Label || expects(Expect::Operand, s)
        || s == Sym::RBR || s == Sym::COMMA || is_operator(s)
}

proof fn lemma_shift_shiftable(s: Seq<Sym>, la: Sym)
    requires
        decide(s, la) is SHIFT,
        expects(decide(s, la)->SHIFT_0, la),
    ensures
        is_shiftable(la),
{
}

proof fn lemma_leaf_ok(tok: Token, e: Expr)
    requires
        is_shiftable(sym_of(tok)),
        token_value_of(tok) == Some(e.kind),
    ensures
        sym_ok(sym_of(tok), e),
{
    match tok {
        Token::DataType(t) => {
            assert(valid_width(datatype_of(t@)->0));
        },
        _ => {},
    }
}

/// The token that a reduction by `rule` pushes.
fn result_token(rule: Rule) -> (t: Token)
    requires
        valid_rule(rule),
    ensures
        sym_of(t) == rule_result(rule),
{
    match rule {
        Rule::Instr3 | Rule::Instr2 | Rule::Instr1 | Rule::Instr0 => Token::Instr,
        Rule::ValsPush | Rule::ValsStart => Token::Vals,
        Rule::Data => Token::Data,
        Rule::Or => Token::E1,
        Rule::Xor => Token::E2,
        Rule::And => Token::E3,
        Rule::Lsh | Rule::Rsh => Token::E4,
        Rule::Sum | Rule::Sub => Token::E5,
        Rule::Mod | Rule::Mul | Rule::Div => Token::E6,
        Rule::Paren => Token::E8,
        Rule::Not => Token::E7,
        Rule::Lift(_, to) => match to {
            Sym::E => Token::E,
            Sym::E1 => Token::E1,
            Sym::E2 => Token::E2,
            Sym::E3 => Token::E3,
            Sym::E4 => Token::E4,
            Sym::E5 => Token::E5,
            Sym::E6 => Token::E6,
            _ => Token::E7,
        },
    }
}

/// The tokens of a spanned token sequence.
pub open spec fn tokens_of(toks: Seq<(Token, Span)>) -> Seq<Token> {
    toks.map_values(|p: (Token, Span)| p.0)
}

/// The span of the token at `pos`; past the last token, the empty span at
/// the end of the last one.
pub open spec fn span_at(toks: Seq<(Token, Span)>, pos: int) -> Span {
    if 0 <= pos < toks.len() {
        toks[pos].1
    } else if toks.len() > 0 {
        Span { start: toks.last().1.end, end: toks.last().1.end }
    } else {
        Span { start: 0, end: 0 }
    }
}

/// What parsing a token sequence returns: on acceptance the value beside
/// each remaining statement symbol, else the error at the token where the
/// automaton stopped.
pub open spec fn parse_result(toks: Seq<(Token, Span)>, r: Result<Vec<Expr>, AsmError>) -> bool {
    match run(Seq::empty(), tokens_of(toks), 0) {
        ParseOutcome::Accept(f) => r is Ok && stacks_agree(f, r->Ok_0@),
        ParseOutcome::SyntaxAt(p) => r == Err::<Vec<Expr>, AsmError>(
            AsmError::SyntaxError(span_at(toks, p as int)),
        ),
        ParseOutcome::LexicalAt(p) => r == Err::<Vec<Expr>, AsmError>(
            AsmError::LexicalError(span_at(toks, p as int)),
        ),
    }
}

/// Runs the shift/reduce automaton over the tokens; on success the value
/// stack is the program, one statement per element, in source order.
pub fn parse(tokens: Vec<(Token, Span)>) -> (r: Result<Vec<Expr>, AsmError>)
    ensures
        parse_result(tokens@, r),
        r is Ok ==> all_statements(r->Ok_0@),
        r is Ok ==> run_values(Seq::empty(), Seq::empty(), tokens@, 0, r->Ok_0@),
{
    let ghost all = tokens@;
    let ghost toks = tokens_of(all);
    let n = tokens.len();
    let end_span = if n > 0 {
        Span { start: tokens[n - 1].1.end, end: tokens[n - 1].1.end }
    } else {
        Span { start: 0, end: 0 }
    };
    let mut input = tokens;
    let mut rest: Vec<(Token, Span)> = Vec::new();
    while input.len() > 0
        invariant
            input.len() + rest.len() == n,
            n == all.len(),
            forall|k: int| 0 <= k < input.len() ==> input@[k] == all[k],
            forall|k: int| 0 <= k < rest.len() ==> rest@[k] == all[n - 1 - k],
        decreases input.len(),
    {
        let t = input.pop().unwrap();
        rest.push(t);
    }
    let mut stack: Vec<Token> = Vec::new();
    let mut vals: Vec<Expr> = Vec::new();
    let mut pos: usize = 0;
    proof {
        assert(syms_of(stack@) =~= Seq::<Sym>::empty());
    }
    loop
        invariant
            pos + rest.len() == n,
            n == all.len(),
            all == tokens@,
            toks == tokens_of(all),
            forall|k: int| 0 <= k < rest.len() ==> rest@[k] == all[n - 1 - k],
            stacks_agree(syms_of(stack@), vals@),
            run(syms_of(stack@), toks, pos as nat) == run(Seq::empty(), toks, 0),
            forall|out: Seq<Expr>| #[trigger]
                run_values(syms_of(stack@), vals@, all, pos as nat, out) ==> run_values(
                    Seq::empty(),
                    Seq::empty(),
                    all,
                    0,
                    out,
                ),
            end_span == span_at(all, n as int),
        decreases n - pos, weight(syms_of(stack@)),
    {
        let ghost syms = syms_of(stack@);
        let ghost la = lookahead_at(toks, pos as int);
        let la_sym = if rest.len() > 0 {
            rest[rest.len() - 1].0.sym()
        } else {
            Sym::EOI
        };
        let span = if rest.len() > 0 {
            rest[rest.len() - 1].1
        } else {
            end_span
        };
        proof {
            if rest.len() > 0 {
                assert(rest@[rest.len() - 1] == all[pos as int]);
            }
            assert(la_sym == la);
            assert(span == span_at(all, pos as int));
        }
        let op = if rest.len() > 0 {
            reduce(&stack, &rest[rest.len() - 1].0)
        } else {
            reduce(&stack, &Token::EOI)
        };
        match op {
            Operation::NOMATCH => {
                if la_sym != Sym::EOI {
                    return Err(AsmError::SyntaxError(span));
                }
                let mut i: usize = 0;
                while i < stack.len()
                    invariant
                        i <= stack.len(),
                        syms == syms_of(stack@),
                        forall|k: int| 0 <= k < i ==> #[trigger] is_statement_sym(syms[k]),
                        decide(syms, la) == Operation::NOMATCH,
                        la == Sym::EOI,
                        la == lookahead_at(toks, pos as int),
                        run(syms, toks, pos as nat) == run(Seq::empty(), toks, 0),
                        span == span_at(all, pos as int),
                        stacks_agree(syms, vals@),
                        run_values(syms, vals@, all, pos as nat, vals@) ==> run_values(
                            Seq::empty(),
                            Seq::empty(),
                            all,
                            0,
                            vals@,
                        ),
                        all == tokens@,
                        toks == tokens_of(all),
                    decreases stack.len() - i,
                {
                    let s = stack[i].sym();
                    if !(s == Sym::Instr || s == Sym::Data || s == Sym::Label) {
                        proof {
                            assert(syms[i as int] == sym_of(stack@[i as int]));
                            assert(!is_statement_sym(syms[i as int]));
                            assert(!all_statement_syms(syms));
                            assert(run(syms, toks, pos as nat) == ParseOutcome::SyntaxAt(pos as nat));
                        }
                        return Err(AsmError::SyntaxError(span));
                    }
                    i = i + 1;
                }
                proof {
                    assert forall|k: int| 0 <= k < vals@.len() implies #[trigger] wf_statement(
                        vals@[k],
                    ) by {
                        assert(is_statement_sym(syms[k]));
                        assert(sym_ok(syms[k], vals@[k]));
                    }
                    assert(all_statement_syms(syms));
                    assert(run(syms, toks, pos as nat) == ParseOutcome::Accept(syms));
                    assert(run_values(syms, vals@, all, pos as nat, vals@));
                }
                return Ok(vals);
            },
            Operation::SHIFT(x) => {
                if rest.len() == 0 || !expects_sym(x, la_sym) {
                    proof {
                        assert(run(syms, toks, pos as nat) == ParseOutcome::SyntaxAt(pos as nat));
                    }
                    return Err(AsmError::SyntaxError(span));
                }
                let (tok, tspan) = rest.pop().unwrap();
                let kind = match token_value(&tok) {
                    None => {
                        return Err(AsmError::LexicalError(tspan));
                    },
                    Some(k) => k,
                };
                let e = Expr { kind, span: tspan, size: 0, offset: 0 };
                let ghost old_vals = vals@;
                proof {
                    lemma_shift_shiftable(syms, la);
                    lemma_leaf_ok(tok, e);
                    assert(e == leaf(all, pos as int));
                }
                stack.push(tok);
                vals.push(e);
                pos = pos + 1;
                proof {
                    assert(syms_of(stack@) =~= syms.push(la));
                    assert(vals@ =~= old_vals.push(leaf(all, (pos - 1) as int)));
                    assert(stacks_agree(syms_of(stack@), vals@));
                    assert forall|out: Seq<Expr>| #[trigger]
                        run_values(syms_of(stack@), vals@, all, pos as nat, out) implies run_values(
                        Seq::empty(),
                        Seq::empty(),
                        all,
                        0,
                        out,
                    ) by {
                        assert(run_values(syms, old_vals, all, (pos - 1) as nat, out));
                    }
                }
            },
            Operation::REDUCE(k, rule) => {
                proof {
                    lemma_decide_reduce(syms, la);
                    lemma_reduce_lowers(syms, la);
                }
                let len = stack.len();
                let ghost old_vals = vals@;
                stack.truncate(len - k);
                let popped = vals.split_off(len - k);
                proof {
                    assert forall|i: int| 0 <= i < popped@.len() implies #[trigger] sym_ok(
                        rule_pattern(rule)[i],
                        popped@[i],
                    ) by {
                        assert(syms[len - k + i] == rule_pattern(rule)[i]);
                    }
                }
                let e = apply_rule(rule, popped);
                stack.push(result_token(rule));
                vals.push(e);
                proof {
                    let rest_syms = syms.subrange(0, syms.len() - k);
                    assert(syms_of(stack@) =~= rest_syms.push(rule_result(rule)));
                    assert(syms_of(stack@).drop_last() =~= rest_syms);
                    assert(stacks_agree(syms_of(stack@), vals@));
                    let popped_vals = old_vals.subrange(old_vals.len() - k, old_vals.len() as int);
                    assert(vals@ =~= old_vals.subrange(0, old_vals.len() - k).push(e));
                    assert(rule_value(rule, popped_vals, e));
                    assert forall|out: Seq<Expr>| #[trigger]
                        run_values(syms_of(stack@), vals@, all, pos as nat, out) implies run_values(
                        Seq::empty(),
                        Seq::empty(),
                        all,
                        0,
                        out,
                    ) by {
                        assert(run_values(syms, old_vals, all, pos as nat, out));
                    }
                }
            },
        }
    }
}

} // verus!
