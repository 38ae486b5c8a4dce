use asm16::error::{AsmError, Span};
use asm16::expr::{Expr, ExprKind};
use asm16::isa::get_size;
use asm16::layout::{assemble, assemble_program};
use asm16::parser::{parse, reduce, Expect, Operation, Rule};
use asm16::token::{Sym, Token};

fn spanned(toks: Vec<Token>) -> Vec<(Token, Span)> {
    let mut out = Vec::new();
    let mut i: usize = 0;
    for t in toks {
        out.push((t, Span { start: i, end: i + 1 }));
        i += 2;
    }
    out
}

fn s(x: &str) -> String {
    x.to_string()
}

fn iname(x: &str) -> Token {
    Token::IName(s(x))
}

fn reg(x: &str) -> Token {
    Token::Reg(s(x))
}

fn num(n: i64) -> Token {
    Token::Number(n)
}

fn db(values: Vec<Token>) -> Vec<Token> {
    let mut t = vec![Token::DataType(s("db"))];
    t.extend(values);
    t
}

fn run(toks: Vec<Token>) -> Result<Vec<u8>, AsmError> {
    assemble(spanned(toks))
}

#[test]
fn three_statements_encode_to_twenty_bytes() {
    let toks = vec![
        Token::Label(s("start")),
        iname("add"),
        reg("r1"),
        Token::COMMA,
        reg("r2"),
        Token::COMMA,
        reg("r3"),
        iname("loa"),
        reg("r4"),
        Token::COMMA,
        reg("r5"),
        Token::COMMA,
        num(100),
        Token::DataType(s("db")),
        num(1),
        Token::COMMA,
        num(2),
        Token::COMMA,
        num(3),
    ];
    let expected: Vec<u8> = vec![
        0x02, 0x21, 0x03, 0x30, 0x01, 0x54, 0x00, 0x30, 0x64, 0x00, 0x00, 0x00, 0x00, 0x00, 0x00,
        0x00, 0x01, 0x02, 0x03, 0x00,
    ];
    assert_eq!(run(toks), Ok(expected));
}

#[test]
fn three_statements_parse_in_order() {
    let toks = vec![
        Token::Label(s("start")),
        iname("add"),
        reg("r1"),
        Token::COMMA,
        reg("r2"),
        Token::COMMA,
        reg("r3"),
        Token::DataType(s("db")),
        num(1),
    ];
    let prog = parse(spanned(toks)).unwrap();
    assert_eq!(prog.len(), 3);
    assert!(matches!(prog[0].kind, ExprKind::Label(ref n) if n == "start"));
    assert!(matches!(prog[1].kind, ExprKind::Instruction(2, 3, ref a) if a.len() == 3));
    assert!(matches!(prog[2].kind, ExprKind::Data(1, ref v) if v.len() == 1));
}

#[test]
fn and_binds_tighter_than_or() {
    let toks = db(vec![num(1), Token::PIPE, num(2), Token::AMPERSAND, num(3)]);
    assert_eq!(run(toks), Ok(vec![3, 0, 0, 0]));
}

#[test]
fn parentheses_override_precedence() {
    let toks = db(vec![Token::LBR, num(1), Token::PIPE, num(2), Token::RBR, Token::AMPERSAND, num(3)]);
    assert_eq!(run(toks), Ok(vec![3 & 3, 0, 0, 0]));
    let toks = db(vec![Token::LBR, num(4), Token::PIPE, num(2), Token::RBR, Token::AMPERSAND, num(3)]);
    assert_eq!(run(toks), Ok(vec![2, 0, 0, 0]));
}

#[test]
fn product_binds_tighter_than_sum() {
    let toks = db(vec![num(2), Token::PLUS, num(3), Token::STAR, num(4)]);
    assert_eq!(run(toks), Ok(vec![14, 0, 0, 0]));
}

#[test]
fn subtraction_is_left_associative() {
    let toks = db(vec![num(10), Token::MINUS, num(3), Token::MINUS, num(2)]);
    assert_eq!(run(toks), Ok(vec![5, 0, 0, 0]));
}

#[test]
fn shifts_xor_and_not() {
    let toks = db(vec![num(1), Token::LSHIFT, num(3)]);
    assert_eq!(run(toks), Ok(vec![8, 0, 0, 0]));
    let toks = db(vec![num(0x40), Token::RSHIFT, num(2), Token::CARET, num(1)]);
    assert_eq!(run(toks), Ok(vec![0x11, 0, 0, 0]));
    let toks = vec![Token::DataType(s("ds")), Token::TILDA, num(0)];
    assert_eq!(run(toks), Ok(vec![0xff, 0xff, 0, 0]));
}

#[test]
fn division_truncates_toward_zero() {
    let minus7 = vec![Token::LBR, num(0), Token::MINUS, num(7), Token::RBR];
    let mut toks = db(minus7.clone());
    toks.extend(vec![Token::SLASH, num(2)]);
    assert_eq!(run(toks), Ok(vec![0xfd, 0, 0, 0]));
    let mut toks = db(minus7);
    toks.extend(vec![Token::PERCENT, num(2)]);
    assert_eq!(run(toks), Ok(vec![0xff, 0, 0, 0]));
}

#[test]
fn arithmetic_wraps() {
    let toks = vec![Token::DataType(s("dl")), num(i64::MAX), Token::PLUS, num(1)];
    assert_eq!(run(toks), Ok(vec![0, 0, 0, 0, 0, 0, 0, 0x80]));
    let toks = vec![Token::DataType(s("dl")), num(i64::MIN), Token::SLASH, Token::LBR, num(0), Token::MINUS, num(1), Token::RBR];
    assert_eq!(run(toks), Ok(vec![0, 0, 0, 0, 0, 0, 0, 0x80]));
}

#[test]
fn forward_label_reference_gets_final_offset() {
    let toks = vec![
        iname("loa"),
        reg("r1"),
        Token::COMMA,
        reg("r0"),
        Token::COMMA,
        Token::Id(s("end")),
        iname("add"),
        reg("r1"),
        Token::COMMA,
        reg("r2"),
        Token::COMMA,
        reg("r3"),
        Token::Label(s("end")),
    ];
    let out = run(toks).unwrap();
    assert_eq!(out.len(), 16);
    assert_eq!(&out[4..12], &[16, 0, 0, 0, 0, 0, 0, 0]);
}

#[test]
fn current_position_is_statement_offset() {
    let toks = vec![
        iname("iret"),
        iname("loa"),
        reg("r1"),
        Token::COMMA,
        reg("r0"),
        Token::COMMA,
        Token::Id(s("$")),
        Token::PLUS,
        num(1),
    ];
    let out = run(toks).unwrap();
    assert_eq!(out.len(), 16);
    assert_eq!(out[8], 5);
}

#[test]
fn image_length_equals_final_cursor() {
    let mut toks = db(vec![num(1), Token::COMMA, num(2), Token::COMMA, num(3), Token::COMMA, num(4), Token::COMMA, num(5)]);
    toks.push(Token::Label(s("end")));
    toks.push(Token::DataType(s("dl")));
    toks.push(Token::Id(s("end")));
    let out = run(toks).unwrap();
    assert_eq!(out.len(), 16);
    assert_eq!(out[8], 8);
    assert_eq!(&out[5..8], &[0, 0, 0]);
}

#[test]
fn assembling_twice_gives_same_bytes() {
    let make = || {
        vec![
            Token::Label(s("top")),
            iname("subn"),
            reg("r1"),
            Token::COMMA,
            reg("r1"),
            Token::COMMA,
            Token::Id(s("top")),
            Token::PLUS,
            num(3),
        ]
    };
    let first = run(make()).unwrap();
    let second = run(make()).unwrap();
    assert_eq!(first, second);
    assert_eq!(first.len(), 12);
}

#[test]
fn division_by_zero_aborts() {
    let toks = db(vec![num(1), Token::SLASH, num(0)]);
    assert_eq!(run(toks), Err(AsmError::DivisionByZero));
    let toks = db(vec![num(5), Token::PERCENT, Token::LBR, num(2), Token::MINUS, num(2), Token::RBR, Token::PLUS, num(1)]);
    assert_eq!(run(toks), Err(AsmError::DivisionByZero));
}

#[test]
fn operand_count_is_checked_at_encoding() {
    let toks = vec![iname("add"), reg("r1"), Token::COMMA, reg("r2")];
    assert_eq!(run(toks), Err(AsmError::MalformedOperandArity));
    let toks = vec![iname("iret"), reg("r1")];
    assert_eq!(run(toks), Err(AsmError::MalformedOperandArity));
    let toks = vec![iname("push")];
    assert_eq!(run(toks), Err(AsmError::MalformedOperandArity));
}

#[test]
fn unresolved_label_names_identifier() {
    let toks = db(vec![Token::Id(s("nowhere"))]);
    assert_eq!(run(toks), Err(AsmError::UnresolvedLabel(s("nowhere"))));
}

#[test]
fn opcode_without_shape_is_refused() {
    let toks = vec![iname("syscall")];
    assert_eq!(run(toks), Err(AsmError::UnmappedOpcode(0x26)));
}

#[test]
fn syntax_errors_carry_span() {
    let toks = vec![num(5)];
    assert_eq!(run(toks), Err(AsmError::SyntaxError(Span { start: 0, end: 1 })));
    let toks = vec![iname("add"), reg("r1"), Token::COMMA];
    assert_eq!(run(toks), Err(AsmError::SyntaxError(Span { start: 5, end: 5 })));
    let toks = db(vec![reg("r1")]);
    assert_eq!(run(toks), Err(AsmError::SyntaxError(Span { start: 2, end: 3 })));
}

#[test]
fn lexical_error_on_bad_register() {
    let toks = vec![iname("push"), reg("r99")];
    assert_eq!(run(toks), Err(AsmError::LexicalError(Span { start: 2, end: 3 })));
}

#[test]
fn size_suffix_and_byte_immediate() {
    let toks = vec![iname("addB"), reg("r1"), Token::COMMA, reg("r2"), Token::COMMA, reg("r3")];
    assert_eq!(run(toks), Ok(vec![0x02, 0x21, 0x03, 0x00]));
    let toks = vec![iname("iint"), num(0xab)];
    assert_eq!(run(toks), Ok(vec![0x1b, 0x00, 0xa0, 0x3b]));
    let toks = vec![iname("sto"), reg("r1"), Token::COMMA, reg("sp"), Token::COMMA, num(-2)];
    assert_eq!(
        run(toks),
        Ok(vec![0x00, 0xe0, 0x01, 0x30, 0xfe, 0xff, 0xff, 0xff, 0xff, 0xff, 0xff, 0xff])
    );
}

#[test]
fn empty_input_gives_empty_image() {
    assert_eq!(run(vec![]), Ok(vec![]));
}

#[test]
fn statement_sizes() {
    let wide = Expr { kind: ExprKind::Instruction(0, 3, vec![]), ..Default::default() };
    assert_eq!(get_size(&wide), Some(12));
    let narrow = Expr { kind: ExprKind::Instruction(2, 3, vec![]), ..Default::default() };
    assert_eq!(get_size(&narrow), Some(4));
    let vals = vec![
        Expr { kind: ExprKind::Number(1), ..Default::default() },
        Expr { kind: ExprKind::Number(2), ..Default::default() },
        Expr { kind: ExprKind::Number(3), ..Default::default() },
    ];
    let data = Expr { kind: ExprKind::Data(4, vals), ..Default::default() };
    assert_eq!(get_size(&data), Some(12));
    let label = Expr { kind: ExprKind::Label(s("x")), ..Default::default() };
    assert_eq!(get_size(&label), Some(0));
}

#[test]
fn program_of_data_is_padded() {
    let vals = vec![
        Expr { kind: ExprKind::Number(0x0102), ..Default::default() },
        Expr { kind: ExprKind::Number(-1), ..Default::default() },
    ];
    let prog = vec![
        Expr { kind: ExprKind::Data(2, vals), ..Default::default() },
        Expr { kind: ExprKind::Label(s("after")), ..Default::default() },
    ];
    assert_eq!(assemble_program(prog), Ok(vec![0x02, 0x01, 0xff, 0xff]));
}

#[test]
fn grammar_actions() {
    assert_eq!(reduce(&vec![], &Token::EOI), Operation::NOMATCH);
    assert_eq!(reduce(&vec![], &iname("add")), Operation::SHIFT(Expect::Statement));
    assert_eq!(reduce(&vec![iname("add")], &reg("r1")), Operation::SHIFT(Expect::Operand));
    assert_eq!(reduce(&vec![iname("add")], &Token::EOI), Operation::REDUCE(1, Rule::Instr0));
    assert_eq!(
        reduce(&vec![Token::E1, Token::PIPE, Token::E1], &Token::EOI),
        Operation::REDUCE(3, Rule::Or)
    );
    assert_eq!(
        reduce(&vec![Token::E3], &Token::AMPERSAND),
        Operation::SHIFT(Expect::Only(Sym::AMPERSAND))
    );
    assert_eq!(reduce(&vec![Token::E3], &Token::PIPE), Operation::REDUCE(1, Rule::Lift(Sym::E3, Sym::E2)));
}

#[test]
fn update_offset_reaches_every_node() {
    let n = |v: i64| Expr { kind: ExprKind::Number(v), ..Default::default() };
    let sum = Expr { kind: ExprKind::Sum(Box::new(n(1)), Box::new(n(2))), ..Default::default() };
    let reg = Expr { kind: ExprKind::Reg(1), ..Default::default() };
    let mut e = Expr { kind: ExprKind::Instruction(1, 3, vec![reg, sum]), ..Default::default() };
    e.update_offset(40);
    assert_eq!(e.offset, 40);
    match &e.kind {
        ExprKind::Instruction(1, 3, args) => {
            assert_eq!(args.len(), 2);
            assert_eq!(args[0].offset, 40);
            assert_eq!(args[1].offset, 40);
            match &args[1].kind {
                ExprKind::Sum(l, r) => {
                    assert_eq!(l.offset, 40);
                    assert_eq!(r.offset, 40);
                    assert!(matches!(l.kind, ExprKind::Number(1)));
                    assert!(matches!(r.kind, ExprKind::Number(2)));
                },
                _ => panic!("operand kind changed"),
            }
        },
        _ => panic!("statement kind changed"),
    }
}
