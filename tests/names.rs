use asm16::isa::{datatype, mnemonic, opcode, register};
use asm16::token::{Sym, Token};

#[test]
fn opcode_names() {
    assert_eq!(opcode("sto"), Some(0x0));
    assert_eq!(opcode("loa"), Some(0x1));
    assert_eq!(opcode("idiv"), Some(0x5));
    assert_eq!(opcode("xorr"), Some(0x10));
    assert_eq!(opcode("push"), Some(0x18));
    assert_eq!(opcode("iint"), Some(0x1b));
    assert_eq!(opcode("ktou"), Some(0x24));
    assert_eq!(opcode("setsyscall"), Some(0x25));
    assert_eq!(opcode("syscall"), Some(0x26));
    assert_eq!(opcode("nop"), None);
    assert_eq!(opcode(""), None);
}

#[test]
fn register_names() {
    assert_eq!(register("r0"), Some(0));
    assert_eq!(register("r9"), Some(9));
    assert_eq!(register("r15"), Some(15));
    assert_eq!(register("sp"), Some(14));
    assert_eq!(register("pc"), Some(15));
    assert_eq!(register("r16"), None);
}

#[test]
fn datatype_names() {
    assert_eq!(datatype("db"), Some(1));
    assert_eq!(datatype("ds"), Some(2));
    assert_eq!(datatype("di"), Some(4));
    assert_eq!(datatype("dl"), Some(8));
    assert_eq!(datatype("dq"), None);
}

#[test]
fn mnemonic_suffixes() {
    assert_eq!(mnemonic("add"), Some((2, 3)));
    assert_eq!(mnemonic("addB"), Some((2, 0)));
    assert_eq!(mnemonic("pushS"), Some((0x18, 1)));
    assert_eq!(mnemonic("ktouI"), Some((0x24, 2)));
    assert_eq!(mnemonic("loaL"), Some((1, 3)));
    assert_eq!(mnemonic("fooB"), None);
    assert_eq!(mnemonic("B"), None);
}

#[test]
fn token_categories() {
    assert_eq!(Token::Reg("r1".to_string()).sym(), Sym::Reg);
    assert_eq!(Token::Number(7).sym(), Sym::Number);
    assert_eq!(Token::E4.sym(), Sym::E4);
}
