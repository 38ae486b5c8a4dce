use vstd::prelude::*;
use vstd::string::*;
use crate::expr::{Expr, ExprKind, InstrArgs, instr_args, operand_shape, wf_statement};

verus! {

/// Text equality of two string slices.
pub(crate) fn str_eq(a: &str, b: &str) -> (r: bool)
    ensures
        r == (a@ == b@),
{
    a.to_owned() == b.to_owned()
}

/// The opcode that a bare mnemonic (without size suffix) names.
pub open spec fn opcode_of(s: Seq<char>) -> Option<u8> {
    if s == "sto"@ {
        Some(0x0)
    } else if s == "loa"@ {
        Some(0x1)
    } else if s == "add"@ {
        Some(0x2)
    } else if s == "sub"@ {
        Some(0x3)
    } else if s == "mul"@ {
        Some(0x4)
    } else if s == "idiv"@ {
        Some(0x5)
    } else if s == "addn"@ {
        Some(0x6)
    } else if s == "subn"@ {
        Some(0x7)
    } else if s == "muln"@ {
        Some(0x8)
    } else if s == "divn"@ {
        Some(0x9)
    } else if s == "addz"@ {
        Some(0xa)
    } else if s == "addc"@ {
        Some(0xb)
    } else if s == "adds"@ {
        Some(0xc)
    } else if s == "notr"@ {
        Some(0xd)
    } else if s == "andr"@ {
        Some(0xe)
    } else if s == "orr"@ {
        Some(0xf)
    } else if s == "xorr"@ {
        Some(0x10)
    } else if s == "shl"@ {
        Some(0x11)
    } else if s == "shr"@ {
        Some(0x12)
    } else if s == "andn"@ {
        Some(0x13)
    } else if s == "orn"@ {
        Some(0x14)
    } else if s == "xorn"@ {
        Some(0x15)
    } else if s == "shln"@ {
        Some(0x16)
    } else if s == "shrn"@ {
        Some(0x17)
    } else if s == "push"@ {
        Some(0x18)
    } else if s == "pop"@ {
        Some(0x19)
    } else if s == "call"@ {
        Some(0x1a)
    } else if s == "iint"@ {
        Some(0x1b)
    } else if s == "iret"@ {
        Some(0x1c)
    } else if s == "chst"@ {
        Some(0x1d)
    } else if s == "lost"@ {
        Some(0x1e)
    } else if s == "chtp"@ {
        Some(0x1f)
    } else if s == "lotp"@ {
        Some(0x20)
    } else if s == "chflag"@ {
        Some(0x21)
    } else if s == "loflag"@ {
        Some(0x22)
    } else if s == "utok"@ {
        Some(0x23)
    } else if s == "ktou"@ {
        Some(0x24)
    } else if s == "setsyscall"@ {
        Some(0x25)
    } else if s == "syscall"@ {
        Some(0x26)
    } else {
        None
    }
}

/// The register number that a register name denotes; `sp` and `pc` are `r14` and `r15`.
pub open spec fn register_of(s: Seq<char>) -> Option<u8> {
    if s == "r0"@ {
        Some(0)
    } else if s == "r1"@ {
        Some(1)
    } else if s == "r2"@ {
        Some(2)
    } else if s == "r3"@ {
        Some(3)
    } else if s == "r4"@ {
        Some(4)
    } else if s == "r5"@ {
        Some(5)
    } else if s == "r6"@ {
        Some(6)
    } else if s == "r7"@ {
        Some(7)
    } else if s == "r8"@ {
        Some(8)
    } else if s == "r9"@ {
        Some(9)
    } else if s == "r10"@ {
        Some(10)
    } else if s == "r11"@ {
        Some(11)
    } else if s == "r12"@ {
        Some(12)
    } else if s == "r13"@ {
        Some(13)
    } else if s == "r14"@ {
        Some(14)
    } else if s == "r15"@ {
        Some(15)
    } else if s == "pc"@ {
        Some(15)
    } else if s == "sp"@ {
        Some(14)
    } else {
        None
    }
}

/// The element width in bytes that a data-type keyword selects.
pub open spec fn datatype_of(s: Seq<char>) -> Option<u8> {
    if s == "db"@ {
        Some(1)
    } else if s == "ds"@ {
        Some(2)
    } else if s == "di"@ {
        Some(4)
    } else if s == "dl"@ {
        Some(8)
    } else {
        None
    }
}

/// The size class that a mnemonic's suffix letter selects.
pub open spec fn size_suffix(c: char) -> Option<u8> {
    if c == 'B' {
        Some(0)
    } else if c == 'S' {
        Some(1)
    } else if c == 'I' {
        Some(2)
    } else if c == 'L' {
        Some(3)
    } else {
        None
    }
}

/// Opcode and size class of a mnemonic as written: a suffix letter `B`, `S`,
/// `I` or `L` selects size class 0 to 3; without one the size class is 3.
pub open spec fn mnemonic_of(s: Seq<char>) -> Option<(u8, u8)> {
    if s.len() > 0 && size_suffix(s.last()) is Some {
        match opcode_of(s.drop_last()) {
            Some(op) => Some((op, size_suffix(s.last())->0)),
            None => None,
        }
    } else {
        match opcode_of(s) {
            Some(op) => Some((op, 3u8)),
            None => None,
        }
    }
}

/// The opcode of a bare mnemonic, or `None` where `s` names no instruction.
pub fn opcode(s: &str) -> (r: Option<u8>)
    ensures
        r == opcode_of(s@),
{
    if str_eq(s, "sto") {
        Some(0x0)
    } else if str_eq(s, "loa") {
        Some(0x1)
    } else if str_eq(s, "add") {
        Some(0x2)
    } else if str_eq(s, "sub") {
        Some(0x3)
    } else if str_eq(s, "mul") {
        Some(0x4)
    } else if str_eq(s, "idiv") {
        Some(0x5)
    } else if str_eq(s, "addn") {
        Some(0x6)
    } else if str_eq(s, "subn") {
        Some(0x7)
    } else if str_eq(s, "muln") {
        Some(0x8)
    } else if str_eq(s, "divn") {
        Some(0x9)
    } else if str_eq(s, "addz") {
        Some(0xa)
    } else if str_eq(s, "addc") {
        Some(0xb)
    } else if str_eq(s, "adds") {
        Some(0xc)
    } else if str_eq(s, "notr") {
        Some(0xd)
    } else if str_eq(s, "andr") {
        Some(0xe)
    } else if str_eq(s, "orr") {
        Some(0xf)
    } else if str_eq(s, "xorr") {
        Some(0x10)
    } else if str_eq(s, "shl") {
        Some(0x11)
    } else if str_eq(s, "shr") {
        Some(0x12)
    } else if str_eq(s, "andn") {
        Some(0x13)
    } else if str_eq(s, "orn") {
        Some(0x14)
    } else if str_eq(s, "xorn") {
        Some(0x15)
    } else if str_eq(s, "shln") {
        Some(0x16)
    } else if str_eq(s, "shrn") {
        Some(0x17)
    } else if str_eq(s, "push") {
        Some(0x18)
    } else if str_eq(s, "pop") {
        Some(0x19)
    } else if str_eq(s, "call") {
        Some(0x1a)
    } else if str_eq(s, "iint") {
        Some(0x1b)
    } else if str_eq(s, "iret") {
        Some(0x1c)
    } else if str_eq(s, "chst") {
        Some(0x1d)
    } else if str_eq(s, "lost") {
        Some(0x1e)
    } else if str_eq(s, "chtp") {
        Some(0x1f)
    } else if str_eq(s, "lotp") {
        Some(0x20)
    } else if str_eq(s, "chflag") {
        Some(0x21)
    } else if str_eq(s, "loflag") {
        Some(0x22)
    } else if str_eq(s, "utok") {
        Some(0x23)
    } else if str_eq(s, "ktou") {
        Some(0x24)
    } else if str_eq(s, "setsyscall") {
        Some(0x25)
    } else if str_eq(s, "syscall") {
        Some(0x26)
    } else {
        None
    }
}

/// The number of a register name, or `None` where `s` names no register.
pub fn register(s: &str) -> (r: Option<u8>)
    ensures
        r == register_of(s@),
{
    if str_eq(s, "r0") {
        Some(0)
    } else if str_eq(s, "r1") {
        Some(1)
    } else if str_eq(s, "r2") {
        Some(2)
    } else if str_eq(s, "r3") {
        Some(3)
    } else if str_eq(s, "r4") {
        Some(4)
    } else if str_eq(s, "r5") {
        Some(5)
    } else if str_eq(s, "r6") {
        Some(6)
    } else if str_eq(s, "r7") {
        Some(7)
    } else if str_eq(s, "r8") {
        Some(8)
    } else if str_eq(s, "r9") {
        Some(9)
    } else if str_eq(s, "r10") {
        Some(10)
    } else if str_eq(s, "r11") {
        Some(11)
    } else if str_eq(s, "r12") {
        Some(12)
    } else if str_eq(s, "r13") {
        Some(13)
    } else if str_eq(s, "r14") {
        Some(14)
    } else if str_eq(s, "r15") {
        Some(15)
    } else if str_eq(s, "pc") {
        Some(15)
    } else if str_eq(s, "sp") {
        Some(14)
    } else {
        None
    }
}

/// The element width of a data-type keyword, or `None` where `s` is none of them.
pub fn datatype(s: &str) -> (r: Option<u8>)
    ensures
        r == datatype_of(s@),
{
    if str_eq(s, "db") {
        Some(1)
    } else if str_eq(s, "ds") {
        Some(2)
    } else if str_eq(s, "di") {
        Some(4)
    } else if str_eq(s, "dl") {
        Some(8)
    } else {
        None
    }
}

fn suffix_class(c: char) -> (r: Option<u8>)
    ensures
        r == size_suffix(c),
{
    if c == 'B' {
        Some(0)
    } else if c == 'S' {
        Some(1)
    } else if c == 'I' {
        Some(2)
    } else if c == 'L' {
        Some(3)
    } else {
        None
    }
}

/// Opcode and size class of a mnemonic with an optional size suffix.
pub fn mnemonic(s: &str) -> (r: Option<(u8, u8)>)
    ensures
        r == mnemonic_of(s@),
{
    let n = s.unicode_len();
    if n > 0 {
        let last = s.get_char(n - 1);
        if let Some(class) = suffix_class(last) {
            let stem = s.substring_char(0, n - 1);
            proof {
                assert(stem@ =~= s@.drop_last());
            }
            return match opcode(stem) {
                Some(op) => Some((op, class)),
                None => None,
            };
        }
    }
    match opcode(s) {
        Some(op) => Some((op, 3u8)),
        None => None,
    }
}

/// Whether `op` takes a 64-bit immediate operand.
pub open spec fn has_wide_immediate(op: u8) -> bool {
    match operand_shape(op) {
        Some(shape) => shape.contains(InstrArgs::Num64),
        None => false,
    }
}

/// The byte size of a statement: 12 for an instruction with a 64-bit
/// immediate, 4 for any other, width times count for a data directive, and
/// nothing for a label.
pub open spec fn statement_size(e: Expr) -> nat {
    match e.kind {
        ExprKind::Instruction(op, _, _) => if has_wide_immediate(op) {
            12
        } else {
            4
        },
        ExprKind::Data(w, vals) => (w as nat) * vals@.len(),
        _ => 0,
    }
}

fn wide_immediate(op: u8) -> (r: bool)
    ensures
        r == has_wide_immediate(op),
{
    match instr_args(op) {
        None => false,
        Some(shape) => {
            let mut i: usize = 0;
            while i < shape.len()
                invariant
                    i <= shape.len(),
                    operand_shape(op) == Some(shape@),
                    forall|k: int| 0 <= k < i ==> shape@[k] != InstrArgs::Num64,
                decreases shape.len() - i,
            {
                if shape[i] == InstrArgs::Num64 {
                    assert(shape@.contains(InstrArgs::Num64));
                    return true;
                }
                i = i + 1;
            }
            false
        },
    }
}

/// The byte size of a statement, or `None` where it does not fit in 64 bits.
pub fn get_size(e: &Expr) -> (r: Option<u64>)
    requires
        wf_statement(*e),
    ensures
        r == (if statement_size(*e) <= u64::MAX {
            Some(statement_size(*e) as u64)
        } else {
            None::<u64>
        }),
{
    match &e.kind {
        ExprKind::Instruction(op, _, _) => {
            if wide_immediate(*op) {
                Some(12)
            } else {
                Some(4)
            }
        },
        ExprKind::Data(w, vals) => (*w as u64).checked_mul(vals.len() as u64),
        _ => Some(0),
    }
}

} // verus!
