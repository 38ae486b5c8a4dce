use vstd::prelude::*;
use crate::error::{AsmError, Span};
use crate::isa::str_eq;

verus! {

/// What an expression node is, with the subtrees it owns.
#[derive(Debug)]
pub enum ExprKind {
    Empty,
    Number(i64),
    Reg(u8),
    Id(String),
    Label(String),
    IName(u8, u8),
    DType(u8),
    Instruction(u8, u8, Vec<Expr>),
    Data(u8, Vec<Expr>),
    Vals(Vec<Expr>),
    Sum(Box<Expr>, Box<Expr>),
    Sub(Box<Expr>, Box<Expr>),
    Mul(Box<Expr>, Box<Expr>),
    Div(Box<Expr>, Box<Expr>),
    Mod(Box<Expr>, Box<Expr>),
    And(Box<Expr>, Box<Expr>),
    Or(Box<Expr>, Box<Expr>),
    Xor(Box<Expr>, Box<Expr>),
    Not(Box<Expr>),
    Lsh(Box<Expr>, Box<Expr>),
    Rsh(Box<Expr>, Box<Expr>),
}

/// A node of the syntax tree: its kind, where it came from, and, once the
/// layout passes ran, its byte size and byte offset.
#[derive(Debug)]
pub struct Expr {
    pub kind: ExprKind,
    pub span: Span,
    pub size: u64,
    pub offset: u64,
}

/// An expression that evaluates to a value: a number, a register, an
/// identifier, or an operator over such expressions.
pub open spec fn wf_value(e: Expr) -> bool
    decreases e,
{
    match e.kind {
        ExprKind::Number(_) => true,
        ExprKind::Reg(_) => true,
        ExprKind::Id(_) => true,
        ExprKind::Sum(l, r) => wf_value(*l) && wf_value(*r),
        ExprKind::Sub(l, r) => wf_value(*l) && wf_value(*r),
        ExprKind::Mul(l, r) => wf_value(*l) && wf_value(*r),
        ExprKind::Div(l, r) => wf_value(*l) && wf_value(*r),
        ExprKind::Mod(l, r) => wf_value(*l) && wf_value(*r),
        ExprKind::And(l, r) => wf_value(*l) && wf_value(*r),
        ExprKind::Or(l, r) => wf_value(*l) && wf_value(*r),
        ExprKind::Xor(l, r) => wf_value(*l) && wf_value(*r),
        ExprKind::Lsh(l, r) => wf_value(*l) && wf_value(*r),
        ExprKind::Rsh(l, r) => wf_value(*l) && wf_value(*r),
        ExprKind::Not(c) => wf_value(*c),
        _ => false,
    }
}

pub open spec fn all_values(s: Seq<Expr>) -> bool {
    forall|i: int| 0 <= i < s.len() ==> #[trigger] wf_value(s[i])
}

/// The element widths that a data directive may have.
pub open spec fn valid_width(w: u8) -> bool {
    w == 1 || w == 2 || w == 4 || w == 8
}

/// A top-level statement: a label definition, an instruction over value
/// operands, or a data directive of a valid width over values.
pub open spec fn wf_statement(e: Expr) -> bool {
    match e.kind {
        ExprKind::Label(_) => true,
        ExprKind::Instruction(_, _, args) => all_values(args@),
        ExprKind::Data(w, vals) => valid_width(w) && all_values(vals@),
        _ => false,
    }
}

/// Every element of a program is a well-formed statement.
pub open spec fn all_statements(prog: Seq<Expr>) -> bool {
    forall|i: int| 0 <= i < prog.len() ==> #[trigger] wf_statement(prog[i])
}

/// The offset of the first label in `labels` named `name`.
pub open spec fn lookup_label(labels: Seq<Expr>, name: Seq<char>) -> Option<u64>
    decreases labels.len(),
{
    if labels.len() == 0 {
        None
    } else {
        match labels[0].kind {
            ExprKind::Label(l) => if l@ == name {
                Some(labels[0].offset)
            } else {
                lookup_label(labels.drop_first(), name)
            },
            _ => lookup_label(labels.drop_first(), name),
        }
    }
}

/// The identifier that stands for the position of the enclosing statement.
pub open spec fn is_here(name: Seq<char>) -> bool {
    name == "$"@
}

pub open spec fn abs(a: int) -> int {
    if a < 0 {
        -a
    } else {
        a
    }
}

/// Quotient rounded toward zero.
pub open spec fn trunc_quot(a: int, b: int) -> int {
    if (a < 0) == (b < 0) {
        abs(a) / abs(b)
    } else {
        -(abs(a) / abs(b))
    }
}

/// Signed 64-bit division rounding toward zero; `MIN / -1` wraps to `MIN`.
pub open spec fn div_wrap(a: i64, b: i64) -> i64 {
    if a == i64::MIN && b == -1 {
        i64::MIN
    } else {
        trunc_quot(a as int, b as int) as i64
    }
}

/// The remainder that goes with `div_wrap`: it has the sign of `a`.
pub open spec fn rem_wrap(a: i64, b: i64) -> i64 {
    (a - b * trunc_quot(a as int, b as int)) as i64
}

/// A shift amount taken modulo the width of the value.
pub open spec fn shift_amount(b: i64) -> u32 {
    (b & 63) as u32
}

/// Combines two evaluated operands, the left one's failure first.
pub open spec fn both(l: Result<i64, AsmError>, r: Result<i64, AsmError>) -> Result<(i64, i64), AsmError> {
    match l {
        Err(x) => Err(x),
        Ok(a) => match r {
            Err(x) => Err(x),
            Ok(b) => Ok((a, b)),
        },
    }
}

pub open spec fn checked_div(p: Result<(i64, i64), AsmError>, quot: bool) -> Result<i64, AsmError> {
    match p {
        Err(x) => Err(x),
        Ok((a, b)) => if b == 0 {
            Err(AsmError::DivisionByZero)
        } else if quot {
            Ok(div_wrap(a, b))
        } else {
            Ok(rem_wrap(a, b))
        },
    }
}

/// The value of an expression: signed 64-bit arithmetic that wraps; `$`
/// is `here`, the offset of the enclosing statement; any other identifier
/// is the offset of the first label of that name.
pub open spec fn eval_expr(e: Expr, labels: Seq<Expr>, here: u64) -> Result<i64, AsmError>
    decreases e,
{
    match e.kind {
        ExprKind::Number(n) => Ok(n),
        ExprKind::Reg(r) => Ok(r as i64),
        ExprKind::Id(name) => if is_here(name@) {
            Ok(here as i64)
        } else {
            match lookup_label(labels, name@) {
                Some(o) => Ok(o as i64),
                None => Err(AsmError::UnresolvedLabel(name)),
            }
        },
        ExprKind::Sum(l, r) => match both(eval_expr(*l, labels, here), eval_expr(*r, labels, here)) {
            Err(x) => Err(x),
            Ok((a, b)) => Ok(a.wrapping_add(b)),
        },
        ExprKind::Sub(l, r) => match both(eval_expr(*l, labels, here), eval_expr(*r, labels, here)) {
            Err(x) => Err(x),
            Ok((a, b)) => Ok(a.wrapping_sub(b)),
        },
        ExprKind::Mul(l, r) => match both(eval_expr(*l, labels, here), eval_expr(*r, labels, here)) {
            Err(x) => Err(x),
            Ok((a, b)) => Ok(a.wrapping_mul(b)),
        },
        ExprKind::Div(l, r) => checked_div(
            both(eval_expr(*l, labels, here), eval_expr(*r, labels, here)),
            true,
        ),
        ExprKind::Mod(l, r) => checked_div(
            both(eval_expr(*l, labels, here), eval_expr(*r, labels, here)),
            false,
        ),
        ExprKind::And(l, r) => match both(eval_expr(*l, labels, here), eval_expr(*r, labels, here)) {
            Err(x) => Err(x),
            Ok((a, b)) => Ok(a & b),
        },
        ExprKind::Or(l, r) => match both(eval_expr(*l, labels, here), eval_expr(*r, labels, here)) {
            Err(x) => Err(x),
            Ok((a, b)) => Ok(a | b),
        },
        ExprKind::Xor(l, r) => match both(eval_expr(*l, labels, here), eval_expr(*r, labels, here)) {
            Err(x) => Err(x),
            Ok((a, b)) => Ok(a ^ b),
        },
        ExprKind::Lsh(l, r) => match both(eval_expr(*l, labels, here), eval_expr(*r, labels, here)) {
            Err(x) => Err(x),
            Ok((a, b)) => Ok(a.wrapping_shl(shift_amount(b))),
        },
        ExprKind::Rsh(l, r) => match both(eval_expr(*l, labels, here), eval_expr(*r, labels, here)) {
            Err(x) => Err(x),
            Ok((a, b)) => Ok(a.wrapping_shr(shift_amount(b))),
        },
        ExprKind::Not(c) => match eval_expr(*c, labels, here) {
            Err(x) => Err(x),
            Ok(a) => Ok(!a),
        },
        _ => Ok(0),
    }
}

fn magnitude(a: i64) -> (r: u64)
    ensures
        r as int == abs(a as int),
{
    if a == i64::MIN {
        9223372036854775808u64
    } else if a < 0 {
        (-a) as u64
    } else {
        a as u64
    }
}

/// Quotient and remainder of signed 64-bit values, rounding toward zero and wrapping.
fn divide(a: i64, b: i64, quot: bool) -> (r: i64)
    requires
        b != 0,
    ensures
        quot ==> r == div_wrap(a, b),
        !quot ==> r == rem_wrap(a, b),
{
    let ua = magnitude(a);
    let ub = magnitude(b);
    let q: u64 = ua / ub;
    let m: u64 = ua % ub;
    proof {
        assert(q <= ua) by (nonlinear_arith)
            requires
                q == ua / ub,
                ub >= 1,
        ;
        assert(ub >= 2 ==> q <= 4611686018427387904) by (nonlinear_arith)
            requires
                q == ua / ub,
                ua <= 9223372036854775808,
        ;
        assert(ua == ub * q + m && m < ub) by (nonlinear_arith)
            requires
                q == ua / ub,
                m == ua % ub,
                ub >= 1,
        ;
    }
    if quot {
        if a == i64::MIN && b == -1 {
            i64::MIN
        } else if (a < 0) == (b < 0) {
            q as i64
        } else if q == 9223372036854775808u64 {
            i64::MIN
        } else {
            -(q as i64)
        }
    } else {
        proof {
            let tq = trunc_quot(a as int, b as int);
            if a < 0 && b < 0 {
                assert(a - b * tq == -(m as int)) by (nonlinear_arith)
                    requires a == -ua, b == -ub, tq == q, ua == ub * q + m;
            } else if a < 0 {
                assert(a - b * tq == -(m as int)) by (nonlinear_arith)
                    requires a == -ua, b == ub, tq == -q, ua == ub * q + m;
            } else if b < 0 {
                assert(a - b * tq == m) by (nonlinear_arith)
                    requires a == ua, b == -ub, tq == -q, ua == ub * q + m;
            } else {
                assert(a - b * tq == m) by (nonlinear_arith)
                    requires a == ua, b == ub, tq == q, ua == ub * q + m;
            }
        }
        if a < 0 {
            -(m as i64)
        } else {
            m as i64
        }
    }
}

/// The offset of the first label in `labels` named `name`.
fn find_label(labels: &Vec<Expr>, name: &String) -> (r: Option<u64>)
    ensures
        r == lookup_label(labels@, name@),
{
    let mut i: usize = 0;
    proof {
        assert(labels@.skip(0) =~= labels@);
    }
    while i < labels.len()
        invariant
            0 <= i <= labels.len(),
            lookup_label(labels@, name@) == lookup_label(labels@.skip(i as int), name@),
        decreases labels.len() - i,
    {
        proof {
            assert(labels@.skip(i as int).drop_first() =~= labels@.skip(i as int + 1));
            assert(labels@.skip(i as int)[0] == labels@[i as int]);
        }
        match &labels[i].kind {
            ExprKind::Label(l) => {
                if str_eq(l.as_str(), name.as_str()) {
                    return Some(labels[i].offset);
                }
            },
            _ => {},
        }
        i = i + 1;
    }
    proof {
        assert(labels@.skip(i as int).len() == 0);
    }
    None
}

/// One operand slot of an instruction, as it is packed into the encoding.
#[derive(Clone, Copy, Debug, PartialEq, Eq, Structural)]
pub enum InstrArgs {
    /// Destination register: low nibble of byte 1.
    R1,
    /// Source register: high nibble of byte 1.
    R2,
    /// Extra register: low nibble of byte 2.
    R3,
    /// 8-bit immediate, split over bytes 2 and 3.
    Num8,
    /// 64-bit immediate, appended after the header.
    Num64,
}

/// The operand categories of each opcode, in operand order; `None` for an
/// opcode with no declared shape.
pub open spec fn operand_shape(op: u8) -> Option<Seq<InstrArgs>> {
    if op == 0 {
        Some(seq![InstrArgs::R3, InstrArgs::R2, InstrArgs::Num64])
    } else if op == 1 || (6 <= op <= 12) || (19 <= op <= 23) {
        Some(seq![InstrArgs::R1, InstrArgs::R2, InstrArgs::Num64])
    } else if (2 <= op <= 5) || (13 <= op <= 18) {
        Some(seq![InstrArgs::R1, InstrArgs::R2, InstrArgs::R3])
    } else if op == 24 || op == 26 {
        Some(seq![InstrArgs::R3])
    } else if op == 25 || op == 30 || op == 32 || op == 34 {
        Some(seq![InstrArgs::R1])
    } else if op == 27 {
        Some(seq![InstrArgs::Num8])
    } else if op == 28 {
        Some(Seq::empty())
    } else if op == 29 || op == 31 || op == 33 {
        Some(seq![InstrArgs::R2])
    } else if op == 35 || op == 36 {
        Some(seq![InstrArgs::R1, InstrArgs::R3])
    } else {
        None
    }
}

/// The operand categories of `op`.
pub fn instr_args(op: u8) -> (r: Option<Vec<InstrArgs>>)
    ensures
        match r {
            Some(v) => operand_shape(op) == Some(v@),
            None => operand_shape(op) is None,
        },
{
    let r = if op == 0 {
        Some(vec![InstrArgs::R3, InstrArgs::R2, InstrArgs::Num64])
    } else if op == 1 || (6 <= op && op <= 12) || (19 <= op && op <= 23) {
        Some(vec![InstrArgs::R1, InstrArgs::R2, InstrArgs::Num64])
    } else if (2 <= op && op <= 5) || (13 <= op && op <= 18) {
        Some(vec![InstrArgs::R1, InstrArgs::R2, InstrArgs::R3])
    } else if op == 24 || op == 26 {
        Some(vec![InstrArgs::R3])
    } else if op == 25 || op == 30 || op == 32 || op == 34 {
        Some(vec![InstrArgs::R1])
    } else if op == 27 {
        Some(vec![InstrArgs::Num8])
    } else if op == 28 {
        Some(Vec::new())
    } else if op == 29 || op == 31 || op == 33 {
        Some(vec![InstrArgs::R2])
    } else if op == 35 || op == 36 {
        Some(vec![InstrArgs::R1, InstrArgs::R3])
    } else {
        None
    };
    proof {
        if r is Some {
            assert(r->0@ =~= operand_shape(op)->0);
        }
    }
    r
}

/// The fields of an instruction encoding that its operands fill.
#[derive(Clone, Copy, Debug)]
pub struct OperandFields {
    pub r1: u8,
    pub r2: u8,
    pub r3: u8,
    pub num8: u8,
    pub num64: Option<i64>,
}

pub open spec fn no_fields() -> OperandFields {
    OperandFields { r1: 0, r2: 0, r3: 0, num8: 0, num64: None }
}

/// Stores an operand's value in the field of its category; a register or an
/// 8-bit immediate keeps the low byte.
pub open spec fn set_field(f: OperandFields, a: InstrArgs, v: i64) -> OperandFields {
    match a {
        InstrArgs::R1 => OperandFields { r1: v as u8, ..f },
        InstrArgs::R2 => OperandFields { r2: v as u8, ..f },
        InstrArgs::R3 => OperandFields { r3: v as u8, ..f },
        InstrArgs::Num8 => OperandFields { num8: v as u8, ..f },
        InstrArgs::Num64 => OperandFields { num64: Some(v), ..f },
    }
}

/// The fields after evaluating the first `n` operands, in order; the first
/// failing operand's error otherwise.
pub open spec fn operand_fields(
    shape: Seq<InstrArgs>,
    args: Seq<Expr>,
    labels: Seq<Expr>,
    here: u64,
    n: nat,
) -> Result<OperandFields, AsmError>
    decreases n,
{
    if n == 0 {
        Ok(no_fields())
    } else {
        match operand_fields(shape, args, labels, here, (n - 1) as nat) {
            Err(x) => Err(x),
            Ok(f) => match eval_expr(args[n - 1], labels, here) {
                Err(x) => Err(x),
                Ok(v) => Ok(set_field(f, shape[n - 1], v)),
            },
        }
    }
}

/// The 4-byte instruction header: opcode; destination and source register
/// nibbles; extra register and the immediate byte's high nibble; the
/// immediate byte's low nibble and the size class.
pub open spec fn header(op: u8, size: u8, f: OperandFields) -> Seq<u8> {
    seq![
        op,
        f.r1 | (f.r2 << 4u8),
        f.r3 | (f.num8 & 0xf0u8),
        (f.num8 & 0x0fu8) | (size << 4u8),
    ]
}

/// Byte `j` of `v`, counting from the least significant.
pub open spec fn le_byte(v: i64, j: nat) -> u8 {
    (v >> ((8 * j) as u32)) as u8
}

/// The `w` low bytes of `v`, least significant first.
pub open spec fn le_bytes(v: i64, w: nat) -> Seq<u8> {
    Seq::new(w, |j: int| le_byte(v, j as nat))
}

/// The encoding of an instruction at offset `here`.
pub open spec fn instruction_bytes(
    op: u8,
    size: u8,
    args: Seq<Expr>,
    labels: Seq<Expr>,
    here: u64,
) -> Result<Seq<u8>, AsmError> {
    match operand_shape(op) {
        None => Err(AsmError::UnmappedOpcode(op)),
        Some(shape) => if args.len() != shape.len() {
            Err(AsmError::MalformedOperandArity)
        } else {
            match operand_fields(shape, args, labels, here, shape.len()) {
                Err(x) => Err(x),
                Ok(f) => Ok(header(op, size, f) + match f.num64 {
                    Some(v) => le_bytes(v, 8),
                    None => Seq::empty(),
                }),
            }
        },
    }
}

/// The encoding of the first `n` values of a data directive of width `w`.
pub open spec fn data_bytes(w: u8, vals: Seq<Expr>, labels: Seq<Expr>, here: u64, n: nat) -> Result<
    Seq<u8>,
    AsmError,
>
    decreases n,
{
    if n == 0 {
        Ok(Seq::empty())
    } else {
        match data_bytes(w, vals, labels, here, (n - 1) as nat) {
            Err(x) => Err(x),
            Ok(b) => match eval_expr(vals[n - 1], labels, here) {
                Err(x) => Err(x),
                Ok(v) => Ok(b + le_bytes(v, w as nat)),
            },
        }
    }
}

/// The encoding of a statement, before padding.
pub open spec fn statement_bytes(e: Expr, labels: Seq<Expr>) -> Result<Seq<u8>, AsmError> {
    match e.kind {
        ExprKind::Instruction(op, size, args) => instruction_bytes(op, size, args@, labels, e.offset),
        ExprKind::Data(w, vals) => data_bytes(w, vals@, labels, e.offset, vals@.len()),
        _ => Ok(Seq::empty()),
    }
}

/// The bytes of an executable result, as a sequence.
pub open spec fn bytes_of(r: Result<Vec<u8>, AsmError>) -> Result<Seq<u8>, AsmError> {
    match r {
        Ok(b) => Ok(b@),
        Err(x) => Err(x),
    }
}

/// Appends the `w` low bytes of `v` to `out`, least significant first.
fn push_le(out: &mut Vec<u8>, v: i64, w: u8)
    requires
        w <= 8,
    ensures
        final(out)@ == old(out)@ + le_bytes(v, w as nat),
{
    let ghost start = out@;
    let mut j: u8 = 0;
    while j < w
        invariant
            j <= w <= 8,
            out@ == start + le_bytes(v, j as nat),
        decreases w - j,
    {
        let sh: u32 = 8 * (j as u32);
        out.push((v >> sh) as u8);
        proof {
            assert(out@ =~= start + le_bytes(v, (j + 1) as nat));
        }
        j = j + 1;
    }
}

/// Once an operand fails, the fields of every longer prefix fail the same way.
proof fn lemma_fields_err(
    shape: Seq<InstrArgs>,
    args: Seq<Expr>,
    labels: Seq<Expr>,
    here: u64,
    k: nat,
    n: nat,
)
    requires
        k <= n,
        operand_fields(shape, args, labels, here, k) is Err,
    ensures
        operand_fields(shape, args, labels, here, n) == operand_fields(shape, args, labels, here, k),
    decreases n - k,
{
    if k < n {
        lemma_fields_err(shape, args, labels, here, k, (n - 1) as nat);
    }
}

/// Once a value fails, the bytes of every longer prefix fail the same way.
proof fn lemma_data_err(w: u8, vals: Seq<Expr>, labels: Seq<Expr>, here: u64, k: nat, n: nat)
    requires
        k <= n,
        data_bytes(w, vals, labels, here, k) is Err,
    ensures
        data_bytes(w, vals, labels, here, n) == data_bytes(w, vals, labels, here, k),
    decreases n - k,
{
    if k < n {
        lemma_data_err(w, vals, labels, here, k, (n - 1) as nat);
    }
}

/// Every identifier in `e` other than `$` names a label of `labels`.
pub open spec fn resolves(e: Expr, labels: Seq<Expr>) -> bool
    decreases e,
{
    match e.kind {
        ExprKind::Id(name) => is_here(name@) || lookup_label(labels, name@) is Some,
        ExprKind::Sum(l, r) => resolves(*l, labels) && resolves(*r, labels),
        ExprKind::Sub(l, r) => resolves(*l, labels) && resolves(*r, labels),
        ExprKind::Mul(l, r) => resolves(*l, labels) && resolves(*r, labels),
        ExprKind::And(l, r) => resolves(*l, labels) && resolves(*r, labels),
        ExprKind::Or(l, r) => resolves(*l, labels) && resolves(*r, labels),
        ExprKind::Xor(l, r) => resolves(*l, labels) && resolves(*r, labels),
        ExprKind::Lsh(l, r) => resolves(*l, labels) && resolves(*r, labels),
        ExprKind::Rsh(l, r) => resolves(*l, labels) && resolves(*r, labels),
        ExprKind::Div(l, r) => resolves(*l, labels) && resolves(*r, labels),
        ExprKind::Mod(l, r) => resolves(*l, labels) && resolves(*r, labels),
        ExprKind::Not(c) => resolves(*c, labels),
        _ => true,
    }
}

/// Some division or remainder in `e` has a divisor that evaluates to zero.
pub open spec fn divides_by_zero(e: Expr, labels: Seq<Expr>, here: u64) -> bool
    decreases e,
{
    match e.kind {
        ExprKind::Sum(l, r) => divides_by_zero(*l, labels, here) || divides_by_zero(*r, labels, here),
        ExprKind::Sub(l, r) => divides_by_zero(*l, labels, here) || divides_by_zero(*r, labels, here),
        ExprKind::Mul(l, r) => divides_by_zero(*l, labels, here) || divides_by_zero(*r, labels, here),
        ExprKind::And(l, r) => divides_by_zero(*l, labels, here) || divides_by_zero(*r, labels, here),
        ExprKind::Or(l, r) => divides_by_zero(*l, labels, here) || divides_by_zero(*r, labels, here),
        ExprKind::Xor(l, r) => divides_by_zero(*l, labels, here) || divides_by_zero(*r, labels, here),
        ExprKind::Lsh(l, r) => divides_by_zero(*l, labels, here) || divides_by_zero(*r, labels, here),
        ExprKind::Rsh(l, r) => divides_by_zero(*l, labels, here) || divides_by_zero(*r, labels, here),
        ExprKind::Div(l, r) => divides_by_zero(*l, labels, here) || divides_by_zero(*r, labels, here) || eval_expr(*r, labels, here) == Ok::<i64, AsmError>(0),
        ExprKind::Mod(l, r) => divides_by_zero(*l, labels, here) || divides_by_zero(*r, labels, here) || eval_expr(*r, labels, here) == Ok::<i64, AsmError>(0),
        ExprKind::Not(c) => divides_by_zero(*c, labels, here),
        _ => false,
    }
}

#[verifier::spinoff_prover]
proof fn lemma_resolved_outcome(e: Expr, labels: Seq<Expr>, here: u64)
    requires
        resolves(e, labels),
    ensures
        eval_expr(e, labels, here) is Ok || eval_expr(e, labels, here) == Err::<i64, AsmError>(AsmError::DivisionByZero),
    decreases e,
{
    match e.kind {
        ExprKind::Sum(l, r) => {
            lemma_resolved_outcome(*l, labels, here);
            lemma_resolved_outcome(*r, labels, here);
        },
        ExprKind::Sub(l, r) => {
            lemma_resolved_outcome(*l, labels, here);
            lemma_resolved_outcome(*r, labels, here);
        },
        ExprKind::Mul(l, r) => {
            lemma_resolved_outcome(*l, labels, here);
            lemma_resolved_outcome(*r, labels, here);
        },
        ExprKind::And(l, r) => {
            lemma_resolved_outcome(*l, labels, here);
            lemma_resolved_outcome(*r, labels, here);
        },
        ExprKind::Or(l, r) => {
            lemma_resolved_outcome(*l, labels, here);
            lemma_resolved_outcome(*r, labels, here);
        },
        ExprKind::Xor(l, r) => {
            lemma_resolved_outcome(*l, labels, here);
            lemma_resolved_outcome(*r, labels, here);
        },
        ExprKind::Lsh(l, r) => {
            lemma_resolved_outcome(*l, labels, here);
            lemma_resolved_outcome(*r, labels, here);
        },
        ExprKind::Rsh(l, r) => {
            lemma_resolved_outcome(*l, labels, here);
            lemma_resolved_outcome(*r, labels, here);
        },
        ExprKind::Div(l, r) => {
            lemma_resolved_outcome(*l, labels, here);
            lemma_resolved_outcome(*r, labels, here);
        },
        ExprKind::Mod(l, r) => {
            lemma_resolved_outcome(*l, labels, here);
            lemma_resolved_outcome(*r, labels, here);
        },
        ExprKind::Not(c) => {
            lemma_resolved_outcome(*c, labels, here);
        },
        _ => {},
    }
}

/// A division or remainder by zero anywhere in an expression whose
/// identifiers all resolve makes its evaluation fail with `DivisionByZero`:
/// never a truncated or zero value.
#[verifier::spinoff_prover]
#[verifier::rlimit(60)]
pub proof fn lemma_division_by_zero(e: Expr, labels: Seq<Expr>, here: u64)
    requires
        resolves(e, labels),
        divides_by_zero(e, labels, here),
    ensures
        eval_expr(e, labels, here) == Err::<i64, AsmError>(AsmError::DivisionByZero),
    decreases e,
{
    match e.kind {
        ExprKind::Sum(l, r) => {
            lemma_resolved_outcome(*l, labels, here);
            lemma_resolved_outcome(*r, labels, here);
            if divides_by_zero(*l, labels, here) {
                lemma_division_by_zero(*l, labels, here);
            } else if divides_by_zero(*r, labels, here) {
                lemma_division_by_zero(*r, labels, here);
            }
        },
        ExprKind::Sub(l, r) => {
            lemma_resolved_outcome(*l, labels, here);
            lemma_resolved_outcome(*r, labels, here);
            if divides_by_zero(*l, labels, here) {
                lemma_division_by_zero(*l, labels, here);
            } else if divides_by_zero(*r, labels, here) {
                lemma_division_by_zero(*r, labels, here);
            }
        },
        ExprKind::Mul(l, r) => {
            lemma_resolved_outcome(*l, labels, here);
            lemma_resolved_outcome(*r, labels, here);
            if divides_by_zero(*l, labels, here) {
                lemma_division_by_zero(*l, labels, here);
            } else if divides_by_zero(*r, labels, here) {
                lemma_division_by_zero(*r, labels, here);
            }
        },
        ExprKind::And(l, r) => {
            lemma_resolved_outcome(*l, labels, here);
            lemma_resolved_outcome(*r, labels, here);
            if divides_by_zero(*l, labels, here) {
                lemma_division_by_zero(*l, labels, here);
            } else if divides_by_zero(*r, labels, here) {
                lemma_division_by_zero(*r, labels, here);
            }
        },
        ExprKind::Or(l, r) => {
            lemma_resolved_outcome(*l, labels, here);
            lemma_resolved_outcome(*r, labels, here);
            if divides_by_zero(*l, labels, here) {
                lemma_division_by_zero(*l, labels, here);
            } else if divides_by_zero(*r, labels, here) {
                lemma_division_by_zero(*r, labels, here);
            }
        },
        ExprKind::Xor(l, r) => {
            lemma_resolved_outcome(*l, labels, here);
            lemma_resolved_outcome(*r, labels, here);
            if divides_by_zero(*l, labels, here) {
                lemma_division_by_zero(*l, labels, here);
            } else if divides_by_zero(*r, labels, here) {
                lemma_division_by_zero(*r, labels, here);
            }
        },
        ExprKind::Lsh(l, r) => {
            lemma_resolved_outcome(*l, labels, here);
            lemma_resolved_outcome(*r, labels, here);
            if divides_by_zero(*l, labels, here) {
                lemma_division_by_zero(*l, labels, here);
            } else if divides_by_zero(*r, labels, here) {
                lemma_division_by_zero(*r, labels, here);
            }
        },
        ExprKind::Rsh(l, r) => {
            lemma_resolved_outcome(*l, labels, here);
            lemma_resolved_outcome(*r, labels, here);
            if divides_by_zero(*l, labels, here) {
                lemma_division_by_zero(*l, labels, here);
            } else if divides_by_zero(*r, labels, here) {
                lemma_division_by_zero(*r, labels, here);
            }
        },
        ExprKind::Div(l, r) => {
            lemma_resolved_outcome(*l, labels, here);
            lemma_resolved_outcome(*r, labels, here);
            if divides_by_zero(*l, labels, here) {
                lemma_division_by_zero(*l, labels, here);
            } else if divides_by_zero(*r, labels, here) {
                lemma_division_by_zero(*r, labels, here);
            }
        },
        ExprKind::Mod(l, r) => {
            lemma_resolved_outcome(*l, labels, here);
            lemma_resolved_outcome(*r, labels, here);
            if divides_by_zero(*l, labels, here) {
                lemma_division_by_zero(*l, labels, here);
            } else if divides_by_zero(*r, labels, here) {
                lemma_division_by_zero(*r, labels, here);
            }
        },
        ExprKind::Not(c) => {
            lemma_division_by_zero(*c, labels, here);
        },
        _ => {},
    }
}

/// An instruction is encoded only with exactly as many operands as its
/// opcode has operand categories; with any other count its encoding fails
/// with `MalformedOperandArity`, never filling missing operands with zeros.
pub proof fn lemma_arity_checked(op: u8, size: u8, args: Seq<Expr>, labels: Seq<Expr>, here: u64)
    ensures
        instruction_bytes(op, size, args, labels, here) is Ok ==> operand_shape(op) is Some
            && args.len() == operand_shape(op)->0.len(),
        operand_shape(op) is Some && args.len() != operand_shape(op)->0.len() ==> instruction_bytes(
            op,
            size,
            args,
            labels,
            here,
        ) == Err::<Seq<u8>, AsmError>(AsmError::MalformedOperandArity),
{
}

/// `b` is the value expression `a` with every node's offset set to `off`:
/// kinds, spans and sizes as they were.
pub open spec fn reoffset_value(a: Expr, b: Expr, off: u64) -> bool
    decreases a,
{
    &&& b.offset == off
    &&& b.span == a.span
    &&& b.size == a.size
    &&& match (a.kind, b.kind) {
        (ExprKind::Sum(l1, r1), ExprKind::Sum(l2, r2)) => reoffset_value(*l1, *l2, off)
            && reoffset_value(*r1, *r2, off),
        (ExprKind::Sub(l1, r1), ExprKind::Sub(l2, r2)) => reoffset_value(*l1, *l2, off)
            && reoffset_value(*r1, *r2, off),
        (ExprKind::Mul(l1, r1), ExprKind::Mul(l2, r2)) => reoffset_value(*l1, *l2, off)
            && reoffset_value(*r1, *r2, off),
        (ExprKind::Div(l1, r1), ExprKind::Div(l2, r2)) => reoffset_value(*l1, *l2, off)
            && reoffset_value(*r1, *r2, off),
        (ExprKind::Mod(l1, r1), ExprKind::Mod(l2, r2)) => reoffset_value(*l1, *l2, off)
            && reoffset_value(*r1, *r2, off),
        (ExprKind::And(l1, r1), ExprKind::And(l2, r2)) => reoffset_value(*l1, *l2, off)
            && reoffset_value(*r1, *r2, off),
        (ExprKind::Or(l1, r1), ExprKind::Or(l2, r2)) => reoffset_value(*l1, *l2, off)
            && reoffset_value(*r1, *r2, off),
        (ExprKind::Xor(l1, r1), ExprKind::Xor(l2, r2)) => reoffset_value(*l1, *l2, off)
            && reoffset_value(*r1, *r2, off),
        (ExprKind::Lsh(l1, r1), ExprKind::Lsh(l2, r2)) => reoffset_value(*l1, *l2, off)
            && reoffset_value(*r1, *r2, off),
        (ExprKind::Rsh(l1, r1), ExprKind::Rsh(l2, r2)) => reoffset_value(*l1, *l2, off)
            && reoffset_value(*r1, *r2, off),
        (ExprKind::Not(c1), ExprKind::Not(c2)) => reoffset_value(*c1, *c2, off),
        (ExprKind::Number(x), ExprKind::Number(y)) => x == y,
        (ExprKind::Reg(x), ExprKind::Reg(y)) => x == y,
        (ExprKind::Id(x), ExprKind::Id(y)) => x == y,
        _ => false,
    }
}

/// `y` is `x` with every node of every element given offset `off`.
pub open spec fn all_reoffset(x: Seq<Expr>, y: Seq<Expr>, off: u64) -> bool {
    x.len() == y.len() && forall|i: int| 0 <= i < x.len() ==> #[trigger] reoffset_value(x[i], y[i], off)
}

/// A node whose offsets `update_offset` sets: a value expression, a leaf,
/// or a statement or value list over value expressions.
pub open spec fn offsettable(e: Expr) -> bool {
    wf_value(e) || match e.kind {
        ExprKind::Instruction(_, _, x) => all_values(x@),
        ExprKind::Data(_, x) => all_values(x@),
        ExprKind::Vals(x) => all_values(x@),
        ExprKind::Label(_) | ExprKind::IName(_, _) | ExprKind::DType(_) | ExprKind::Empty => true,
        _ => false,
    }
}

/// `b` is `a` with every node's offset set to `off`: kinds, spans and
/// sizes as they were.
pub open spec fn reoffset(a: Expr, b: Expr, off: u64) -> bool {
    if wf_value(a) {
        reoffset_value(a, b, off)
    } else {
        &&& b.offset == off
        &&& b.span == a.span
        &&& b.size == a.size
        &&& match (a.kind, b.kind) {
            (ExprKind::Instruction(o1, s1, x), ExprKind::Instruction(o2, s2, y)) => o1 == o2 && s1
                == s2 && all_reoffset(x@, y@, off),
            (ExprKind::Data(w1, x), ExprKind::Data(w2, y)) => w1 == w2 && all_reoffset(x@, y@, off),
            (ExprKind::Vals(x), ExprKind::Vals(y)) => all_reoffset(x@, y@, off),
            (ExprKind::Label(x), ExprKind::Label(y)) => x == y,
            (ExprKind::IName(o1, s1), ExprKind::IName(o2, s2)) => o1 == o2 && s1 == s2,
            (ExprKind::DType(x), ExprKind::DType(y)) => x == y,
            (ExprKind::Empty, ExprKind::Empty) => true,
            _ => false,
        }
    }
}

/// Sets the offset of every node of `items` and below.
fn update_all(items: &mut Vec<Expr>, offset: u64)
    requires
        all_values(old(items)@),
    ensures
        all_reoffset(old(items)@, final(items)@, offset),
    decreases old(items)@,
{
    let ghost orig = items@;
    let n = items.len();
    let mut taken: Vec<Expr> = Vec::new();
    std::mem::swap(items, &mut taken);
    let mut rev: Vec<Expr> = Vec::new();
    while taken.len() > 0
        invariant
            taken.len() + rev.len() == n,
            n == orig.len(),
            forall|k: int| 0 <= k < taken.len() ==> taken@[k] == orig[k],
            forall|k: int| 0 <= k < rev.len() ==> rev@[k] == orig[n - 1 - k],
        decreases taken.len(),
    {
        let e = taken.pop().unwrap();
        rev.push(e);
    }
    let mut out: Vec<Expr> = Vec::new();
    while rev.len() > 0
        invariant
            out.len() + rev.len() == n,
            n == orig.len(),
            orig == old(items)@,
            all_values(orig),
            forall|k: int| 0 <= k < rev.len() ==> rev@[k] == orig[n - 1 - k],
            forall|k: int| 0 <= k < out.len() ==> #[trigger] reoffset_value(orig[k], out@[k], offset),
        decreases rev.len(),
    {
        let i = out.len();
        let mut e = rev.pop().unwrap();
        assert(e == orig[i as int]);
        assert(decreases_to!(orig => orig[i as int]));
        assert(wf_value(orig[i as int]));
        e.update_offset(offset);
        out.push(e);
    }
    let ghost result = out@;
    assert(out.len() == n);
    assert(all_reoffset(orig, result, offset));
    std::mem::swap(items, &mut out);
    assert(items@ == result);
}

impl Expr {
    /// Sets the offset of this node and of every node below it, so that a
    /// statement's subexpressions all carry the statement's offset.
    pub fn update_offset(&mut self, offset: u64)
        requires
            offsettable(*old(self)),
        ensures
            reoffset(*old(self), *final(self), offset),
        decreases *old(self),
    {
        let ghost before = *self;
        let mut kind = ExprKind::Empty;
        std::mem::swap(&mut self.kind, &mut kind);
        assert(kind == before.kind);
        let kind = match kind {
            ExprKind::Instruction(op, size, mut arr) => {
                update_all(&mut arr, offset);
                ExprKind::Instruction(op, size, arr)
            },
            ExprKind::Data(w, mut arr) => {
                update_all(&mut arr, offset);
                ExprKind::Data(w, arr)
            },
            ExprKind::Vals(mut arr) => {
                update_all(&mut arr, offset);
                ExprKind::Vals(arr)
            },
            ExprKind::Sum(mut l, mut r) => {
                l.update_offset(offset);
                r.update_offset(offset);
                ExprKind::Sum(l, r)
            },
            ExprKind::Sub(mut l, mut r) => {
                l.update_offset(offset);
                r.update_offset(offset);
                ExprKind::Sub(l, r)
            },
            ExprKind::Mul(mut l, mut r) => {
                l.update_offset(offset);
                r.update_offset(offset);
                ExprKind::Mul(l, r)
            },
            ExprKind::Div(mut l, mut r) => {
                l.update_offset(offset);
                r.update_offset(offset);
                ExprKind::Div(l, r)
            },
            ExprKind::Mod(mut l, mut r) => {
                l.update_offset(offset);
                r.update_offset(offset);
                ExprKind::Mod(l, r)
            },
            ExprKind::And(mut l, mut r) => {
                l.update_offset(offset);
                r.update_offset(offset);
                ExprKind::And(l, r)
            },
            ExprKind::Or(mut l, mut r) => {
                l.update_offset(offset);
                r.update_offset(offset);
                ExprKind::Or(l, r)
            },
            ExprKind::Xor(mut l, mut r) => {
                l.update_offset(offset);
                r.update_offset(offset);
                ExprKind::Xor(l, r)
            },
            ExprKind::Lsh(mut l, mut r) => {
                l.update_offset(offset);
                r.update_offset(offset);
                ExprKind::Lsh(l, r)
            },
            ExprKind::Rsh(mut l, mut r) => {
                l.update_offset(offset);
                r.update_offset(offset);
                ExprKind::Rsh(l, r)
            },
            ExprKind::Not(mut c) => {
                c.update_offset(offset);
                ExprKind::Not(c)
            },
            other => other,
        };
        self.kind = kind;
        self.offset = offset;
    }
}


impl Default for Expr {
    /// An empty node at the start of the source, without size or offset.
    fn default() -> (r: Expr)
        ensures
            r.kind is Empty,
            r.span == (Span { start: 0, end: 0 }),
            r.size == 0,
            r.offset == 0,
    {
        Expr { kind: ExprKind::Empty, span: Span { start: 0, end: 0 }, size: 0, offset: 0 }
    }
}

impl Expr {
    /// Evaluates this expression; `here` is the offset of the enclosing statement.
    pub fn eval(&self, labels: &Vec<Expr>, here: u64) -> (r: Result<i64, AsmError>)
        requires
            wf_value(*self),
        ensures
            r == eval_expr(*self, labels@, here),
        decreases *self,
    {
        match &self.kind {
            ExprKind::Number(n) => Ok(*n),
            ExprKind::Reg(r) => Ok(*r as i64),
            ExprKind::Id(name) => {
                if str_eq(name.as_str(), "$") {
                    Ok(here as i64)
                } else {
                    match find_label(labels, name) {
                        Some(o) => Ok(o as i64),
                        None => Err(AsmError::UnresolvedLabel(name.clone())),
                    }
                }
            },
            ExprKind::Sum(l, r) => match l.eval(labels, here) {
                Err(x) => Err(x),
                Ok(a) => match r.eval(labels, here) {
                    Err(x) => Err(x),
                    Ok(b) => Ok(a.wrapping_add(b)),
                },
            },
            ExprKind::Sub(l, r) => match l.eval(labels, here) {
                Err(x) => Err(x),
                Ok(a) => match r.eval(labels, here) {
                    Err(x) => Err(x),
                    Ok(b) => Ok(a.wrapping_sub(b)),
                },
            },
            ExprKind::Mul(l, r) => match l.eval(labels, here) {
                Err(x) => Err(x),
                Ok(a) => match r.eval(labels, here) {
                    Err(x) => Err(x),
                    Ok(b) => Ok(a.wrapping_mul(b)),
                },
            },
            ExprKind::And(l, r) => match l.eval(labels, here) {
                Err(x) => Err(x),
                Ok(a) => match r.eval(labels, here) {
                    Err(x) => Err(x),
                    Ok(b) => Ok(a & b),
                },
            },
            ExprKind::Or(l, r) => match l.eval(labels, here) {
                Err(x) => Err(x),
                Ok(a) => match r.eval(labels, here) {
                    Err(x) => Err(x),
                    Ok(b) => Ok(a | b),
                },
            },
            ExprKind::Xor(l, r) => match l.eval(labels, here) {
                Err(x) => Err(x),
                Ok(a) => match r.eval(labels, here) {
                    Err(x) => Err(x),
                    Ok(b) => Ok(a ^ b),
                },
            },
            ExprKind::Lsh(l, r) => match l.eval(labels, here) {
                Err(x) => Err(x),
                Ok(a) => match r.eval(labels, here) {
                    Err(x) => Err(x),
                    Ok(b) => Ok(a.wrapping_shl((b & 63) as u32)),
                },
            },
            ExprKind::Rsh(l, r) => match l.eval(labels, here) {
                Err(x) => Err(x),
                Ok(a) => match r.eval(labels, here) {
                    Err(x) => Err(x),
                    Ok(b) => Ok(a.wrapping_shr((b & 63) as u32)),
                },
            },
            ExprKind::Div(l, r) => match l.eval(labels, here) {
                Err(x) => Err(x),
                Ok(a) => match r.eval(labels, here) {
                    Err(x) => Err(x),
                    Ok(b) => if b == 0 {
                        Err(AsmError::DivisionByZero)
                    } else {
                        Ok(divide(a, b, true))
                    },
                },
            },
            ExprKind::Mod(l, r) => match l.eval(labels, here) {
                Err(x) => Err(x),
                Ok(a) => match r.eval(labels, here) {
                    Err(x) => Err(x),
                    Ok(b) => if b == 0 {
                        Err(AsmError::DivisionByZero)
                    } else {
                        Ok(divide(a, b, false))
                    },
                },
            },
            ExprKind::Not(c) => match c.eval(labels, here) {
                Err(x) => Err(x),
                Ok(a) => Ok(!a),
            },
            _ => Ok(0),
        }
    }

    /// The encoding of this statement before padding: nothing for a label;
    /// the 4-byte header, and the 64-bit immediate where the opcode has
    /// one, for an instruction; each value's `w` low bytes for a data
    /// directive of width `w`. Operands are evaluated at this statement's
    /// offset, in order, and the first failure is returned.
    pub fn to_bytes(&self, labels: &Vec<Expr>) -> (r: Result<Vec<u8>, AsmError>)
        requires
            wf_statement(*self),
        ensures
            bytes_of(r) == statement_bytes(*self, labels@),
    {
        match &self.kind {
            ExprKind::Instruction(op, size, args) => {
                let shape = match instr_args(*op) {
                    None => {
                        return Err(AsmError::UnmappedOpcode(*op));
                    },
                    Some(v) => v,
                };
                if args.len() != shape.len() {
                    return Err(AsmError::MalformedOperandArity);
                }
                let mut f = OperandFields { r1: 0, r2: 0, r3: 0, num8: 0, num64: None };
                let mut i: usize = 0;
                while i < shape.len()
                    invariant
                        i <= shape.len() == args.len(),
                        all_values(args@),
                        operand_shape(*op) == Some(shape@),
                        statement_bytes(*self, labels@) == instruction_bytes(
                            *op,
                            *size,
                            args@,
                            labels@,
                            self.offset,
                        ),
                        operand_fields(shape@, args@, labels@, self.offset, i as nat) == Ok::<
                            OperandFields,
                            AsmError,
                        >(f),
                    decreases shape.len() - i,
                {
                    assert(wf_value(args@[i as int]));
                    let v = match args[i].eval(labels, self.offset) {
                        Err(x) => {
                            proof {
                                assert(operand_fields(shape@, args@, labels@, self.offset, (i + 1) as nat)
                                    == Err::<OperandFields, AsmError>(x));
                                lemma_fields_err(
                                    shape@,
                                    args@,
                                    labels@,
                                    self.offset,
                                    (i + 1) as nat,
                                    shape@.len(),
                                );
                                assert(instruction_bytes(*op, *size, args@, labels@, self.offset)
                                    == Err::<Seq<u8>, AsmError>(x));
                            }
                            return Err(x);
                        },
                        Ok(v) => v,
                    };
                    match shape[i] {
                        InstrArgs::R1 => {
                            f.r1 = #[verifier::truncate] (v as u8);
                        },
                        InstrArgs::R2 => {
                            f.r2 = #[verifier::truncate] (v as u8);
                        },
                        InstrArgs::R3 => {
                            f.r3 = #[verifier::truncate] (v as u8);
                        },
                        InstrArgs::Num8 => {
                            f.num8 = #[verifier::truncate] (v as u8);
                        },
                        InstrArgs::Num64 => {
                            f.num64 = Some(v);
                        },
                    }
                    i = i + 1;
                }
                let mut out: Vec<u8> = Vec::new();
                out.push(*op);
                out.push(f.r1 | (f.r2 << 4u8));
                out.push(f.r3 | (f.num8 & 0xf0u8));
                out.push((f.num8 & 0x0fu8) | (*size << 4u8));
                proof {
                    assert(out@ =~= header(*op, *size, f));
                }
                match f.num64 {
                    Some(v) => {
                        push_le(&mut out, v, 8);
                    },
                    None => {
                        assert(out@ =~= header(*op, *size, f) + Seq::<u8>::empty());
                    },
                }
                Ok(out)
            },
            ExprKind::Data(w, vals) => {
                let mut out: Vec<u8> = Vec::new();
                let mut i: usize = 0;
                while i < vals.len()
                    invariant
                        i <= vals.len(),
                        all_values(vals@),
                        valid_width(*w),
                        statement_bytes(*self, labels@) == data_bytes(
                            *w,
                            vals@,
                            labels@,
                            self.offset,
                            vals@.len(),
                        ),
                        data_bytes(*w, vals@, labels@, self.offset, i as nat) == Ok::<
                            Seq<u8>,
                            AsmError,
                        >(out@),
                    decreases vals.len() - i,
                {
                    assert(wf_value(vals@[i as int]));
                    let v = match vals[i].eval(labels, self.offset) {
                        Err(x) => {
                            proof {
                                assert(data_bytes(*w, vals@, labels@, self.offset, (i + 1) as nat)
                                    == Err::<Seq<u8>, AsmError>(x));
                                lemma_data_err(
                                    *w,
                                    vals@,
                                    labels@,
                                    self.offset,
                                    (i + 1) as nat,
                                    vals@.len(),
                                );
                                assert(data_bytes(*w, vals@, labels@, self.offset, vals@.len())
                                    == Err::<Seq<u8>, AsmError>(x));
                            }
                            return Err(x);
                        },
                        Ok(v) => v,
                    };
                    push_le(&mut out, v, *w);
                    i = i + 1;
                }
                Ok(out)
            },
            _ => Ok(Vec::new()),
        }
    }
}

} // verus!
