use vstd::prelude::*;
use crate::error::{AsmError, Span};
use crate::parser::span_at;
use crate::expr::{
    Expr, ExprKind, InstrArgs, OperandFields, all_statements, bytes_of, data_bytes, eval_expr,
    instruction_bytes, is_here, le_bytes, lookup_label, operand_fields, operand_shape,
    statement_bytes, valid_width, wf_statement,
};
use crate::isa::{get_size, has_wide_immediate, statement_size};
use crate::parser::{ParseOutcome, parse, parse_result, run, run_values, stacks_agree, tokens_of};
use crate::token::Token;

verus! {

/// `x` rounded up to a multiple of 4.
pub open spec fn round4(x: nat) -> nat {
    ((x + 3) / 4 * 4) as nat
}

/// The offset pass: the cursor before statement `n`. Each statement starts
/// at the cursor, which then moves past it and up to a multiple of 4.
pub open spec fn cursor(prog: Seq<Expr>, n: nat) -> nat
    decreases n,
{
    if n == 0 {
        0
    } else {
        round4(cursor(prog, (n - 1) as nat) + statement_size(prog[n - 1]))
    }
}

/// Every statement, and the rounding after it, stays within 64-bit offsets.
pub open spec fn fits(prog: Seq<Expr>) -> bool {
    forall|k: int| 0 <= k < prog.len() ==> #[trigger] cursor(prog, k as nat) + statement_size(prog[k]) + 3 <= u64::MAX
}

/// A statement with its size and offset set.
pub open spec fn placed(e: Expr, size: nat, offset: nat) -> Expr {
    Expr { kind: e.kind, span: e.span, size: size as u64, offset: offset as u64 }
}

/// The program after the size and offset passes.
pub open spec fn laid_out(prog: Seq<Expr>) -> Seq<Expr> {
    Seq::new(prog.len(), |i: int| placed(prog[i], statement_size(prog[i]), cursor(prog, i as nat)))
}

/// The label table: the label definitions of a program, in program order.
pub open spec fn labels_of(prog: Seq<Expr>) -> Seq<Expr>
    decreases prog.len(),
{
    if prog.len() == 0 {
        Seq::empty()
    } else if prog[0].kind is Label {
        seq![prog[0]] + labels_of(prog.drop_first())
    } else {
        labels_of(prog.drop_first())
    }
}

/// Zero bytes that bring `b` up to a multiple of 4.
pub open spec fn pad4(b: Seq<u8>) -> Seq<u8> {
    b + Seq::new((round4(b.len()) - b.len()) as nat, |i: int| 0u8)
}

/// The padded encodings of the first `n` statements, concatenated; the
/// first failure otherwise.
pub open spec fn program_bytes(prog: Seq<Expr>, labels: Seq<Expr>, n: nat) -> Result<
    Seq<u8>,
    AsmError,
>
    decreases n,
{
    if n == 0 {
        Ok(Seq::empty())
    } else {
        match program_bytes(prog, labels, (n - 1) as nat) {
            Err(x) => Err(x),
            Ok(b) => match statement_bytes(prog[n - 1], labels) {
                Err(x) => Err(x),
                Ok(s) => Ok(b + pad4(s)),
            },
        }
    }
}

/// The binary image of a program: lay it out, collect its labels, and
/// encode each statement in order against them.
pub open spec fn image(prog: Seq<Expr>) -> Result<Seq<u8>, AsmError> {
    if !fits(prog) {
        Err(AsmError::ImageTooLarge)
    } else {
        program_bytes(laid_out(prog), labels_of(laid_out(prog)), prog.len())
    }
}

proof fn lemma_program_err(prog: Seq<Expr>, labels: Seq<Expr>, k: nat, n: nat)
    requires
        k <= n,
        program_bytes(prog, labels, k) is Err,
    ensures
        program_bytes(prog, labels, n) == program_bytes(prog, labels, k),
    decreases n - k,
{
    if k < n {
        lemma_program_err(prog, labels, k, (n - 1) as nat);
    }
}

proof fn lemma_fits_prefix(prog: Seq<Expr>, k: int)
    requires
        0 <= k < prog.len(),
        cursor(prog, k as nat) + statement_size(prog[k]) + 3 > u64::MAX,
    ensures
        !fits(prog),
{
}

/// Lays the program out: sets each statement's size and offset.
fn place_all(prog: Vec<Expr>) -> (r: Result<Vec<Expr>, AsmError>)
    requires
        all_statements(prog@),
    ensures
        match r {
            Ok(laid) => fits(prog@) && laid@ == laid_out(prog@),
            Err(x) => !fits(prog@) && x == AsmError::ImageTooLarge,
        },
{
    let ghost orig = prog@;
    let n = prog.len();
    let mut work = prog;
    let mut rev: Vec<Expr> = Vec::new();
    while work.len() > 0
        invariant
            work.len() + rev.len() == n,
            n == orig.len(),
            forall|k: int| 0 <= k < work.len() ==> work@[k] == orig[k],
            forall|k: int| 0 <= k < rev.len() ==> rev@[k] == orig[n - 1 - k],
        decreases work.len(),
    {
        let e = work.pop().unwrap();
        rev.push(e);
    }
    let mut out: Vec<Expr> = Vec::new();
    let mut c: u64 = 0;
    while rev.len() > 0
        invariant
            out.len() + rev.len() == n,
            n == orig.len(),
            orig == prog@,
            all_statements(orig),
            forall|k: int| 0 <= k < rev.len() ==> rev@[k] == orig[n - 1 - k],
            out@ =~= laid_out(orig).subrange(0, out.len() as int),
            c == cursor(orig, out.len() as nat),
            forall|k: int| 0 <= k < out.len() ==> #[trigger] cursor(orig, k as nat) + statement_size(orig[k]) + 3 <= u64::MAX,
        decreases rev.len(),
    {
        let i = out.len();
        let mut e = rev.pop().unwrap();
        assert(e == orig[i as int]);
        assert(wf_statement(orig[i as int]));
        let s = match get_size(&e) {
            None => {
                proof {
                    lemma_fits_prefix(orig, i as int);
                }
                return Err(AsmError::ImageTooLarge);
            },
            Some(s) => s,
        };
        if s > u64::MAX - 3 - c {
            proof {
                lemma_fits_prefix(orig, i as int);
            }
            return Err(AsmError::ImageTooLarge);
        }
        e.size = s;
        e.offset = c;
        out.push(e);
        c = (c + s + 3) / 4 * 4;
    }
    Ok(out)
}

/// The label definitions of a laid-out program, in program order.
fn collect_labels(laid: &Vec<Expr>) -> (r: Vec<Expr>)
    ensures
        r@ == labels_of(laid@),
{
    let mut labels: Vec<Expr> = Vec::new();
    let mut i: usize = 0;
    proof {
        assert(laid@.skip(0) =~= laid@);
    }
    while i < laid.len()
        invariant
            i <= laid.len(),
            labels@ + labels_of(laid@.skip(i as int)) == labels_of(laid@),
        decreases laid.len() - i,
    {
        proof {
            assert(laid@.skip(i as int).drop_first() =~= laid@.skip(i as int + 1));
            assert(laid@.skip(i as int)[0] == laid@[i as int]);
        }
        match &laid[i].kind {
            ExprKind::Label(name) => {
                let copy = Expr {
                    kind: ExprKind::Label(name.clone()),
                    span: laid[i].span,
                    size: laid[i].size,
                    offset: laid[i].offset,
                };
                assert(copy == laid@[i as int]);
                let ghost before = labels@;
                labels.push(copy);
                assert(labels@ + labels_of(laid@.skip(i as int + 1)) =~= before + labels_of(
                    laid@.skip(i as int),
                ));
            },
            _ => {},
        }
        i = i + 1;
    }
    proof {
        assert(laid@.skip(i as int).len() == 0);
        assert(labels@ + Seq::<Expr>::empty() =~= labels@);
    }
    labels
}

/// Appends `b` and the zero bytes that bring it up to a multiple of 4.
fn push_padded(out: &mut Vec<u8>, b: Vec<u8>)
    ensures
        final(out)@ == old(out)@ + pad4(b@),
{
    let ghost start = out@;
    let ghost bytes = b@;
    let len = b.len();
    let mut b = b;
    out.append(&mut b);
    let rem = len % 4;
    let pad: usize = if rem == 0 {
        0
    } else {
        4 - rem
    };
    proof {
        assert(pad == round4(len as nat) - len) by (nonlinear_arith)
            requires
                rem == len % 4,
                pad == (if rem == 0 { 0 } else { 4 - rem }),
                round4(len as nat) == (len + 3) / 4 * 4,
        ;
    }
    let mut j: usize = 0;
    while j < pad
        invariant
            j <= pad,
            out@ =~= start + bytes + Seq::new(j as nat, |i: int| 0u8),
        decreases pad - j,
    {
        out.push(0);
        j = j + 1;
    }
    assert(out@ =~= start + pad4(bytes));
}

/// The binary image of a program whose statements are well formed.
pub fn assemble_program(prog: Vec<Expr>) -> (r: Result<Vec<u8>, AsmError>)
    requires
        all_statements(prog@),
    ensures
        bytes_of(r) == image(prog@),
{
    let ghost orig = prog@;
    let laid = match place_all(prog) {
        Err(x) => {
            return Err(x);
        },
        Ok(l) => l,
    };
    let labels = collect_labels(&laid);
    let mut out: Vec<u8> = Vec::new();
    let mut i: usize = 0;
    while i < laid.len()
        invariant
            i <= laid.len(),
            laid@ == laid_out(orig),
            orig == prog@,
            fits(orig),
            all_statements(orig),
            labels@ == labels_of(laid@),
            program_bytes(laid@, labels@, i as nat) == Ok::<Seq<u8>, AsmError>(out@),
        decreases laid.len() - i,
    {
        assert(wf_statement(laid@[i as int]) == wf_statement(orig[i as int]));
        let b = match laid[i].to_bytes(&labels) {
            Err(x) => {
                proof {
                    assert(program_bytes(laid@, labels@, (i + 1) as nat) == Err::<Seq<u8>, AsmError>(x));
                    lemma_program_err(laid@, labels@, (i + 1) as nat, laid@.len());
                }
                return Err(x);
            },
            Ok(b) => b,
        };
        push_padded(&mut out, b);
        i = i + 1;
    }
    Ok(out)
}

proof fn lemma_fields_wide(
    shape: Seq<InstrArgs>,
    args: Seq<Expr>,
    labels: Seq<Expr>,
    here: u64,
    n: nat,
    f: OperandFields,
)
    requires
        n <= shape.len(),
        operand_fields(shape, args, labels, here, n) == Ok::<OperandFields, AsmError>(f),
    ensures
        f.num64 is Some <==> shape.take(n as int).contains(InstrArgs::Num64),
    decreases n,
{
    if n == 0 {
        assert(shape.take(0).len() == 0);
    } else {
        let prev = operand_fields(shape, args, labels, here, (n - 1) as nat)->Ok_0;
        lemma_fields_wide(shape, args, labels, here, (n - 1) as nat, prev);
        let t = shape.take(n as int);
        assert(t =~= shape.take(n - 1).push(shape[n - 1]));
        if t.contains(InstrArgs::Num64) {
            let k = choose|k: int| 0 <= k < t.len() && t[k] == InstrArgs::Num64;
            if k < n - 1 {
                assert(shape.take(n - 1)[k] == InstrArgs::Num64);
            }
        }
        if shape.take(n - 1).contains(InstrArgs::Num64) {
            let p = shape.take(n - 1);
            let k = choose|k: int| 0 <= k < p.len() && p[k] == InstrArgs::Num64;
            assert(t[k] == InstrArgs::Num64);
        }
        if shape[n - 1] == InstrArgs::Num64 {
            assert(t[n - 1] == InstrArgs::Num64);
        }
    }
}

proof fn lemma_data_len(w: u8, vals: Seq<Expr>, labels: Seq<Expr>, here: u64, n: nat, b: Seq<u8>)
    requires
        data_bytes(w, vals, labels, here, n) == Ok::<Seq<u8>, AsmError>(b),
    ensures
        b.len() == (w as nat) * n,
    decreases n,
{
    if n > 0 {
        let prev = data_bytes(w, vals, labels, here, (n - 1) as nat)->Ok_0;
        lemma_data_len(w, vals, labels, here, (n - 1) as nat, prev);
        assert((w as nat) * ((n - 1) as nat) + (w as nat) == (w as nat) * n) by (nonlinear_arith)
            requires
                n > 0,
        ;
    } else {
        assert((w as nat) * n == 0) by (nonlinear_arith)
            requires
                n == 0,
        ;
    }
}

/// A statement that encodes takes exactly its size in bytes.
proof fn lemma_statement_len(e: Expr, labels: Seq<Expr>)
    requires
        wf_statement(e),
        statement_bytes(e, labels) is Ok,
    ensures
        statement_bytes(e, labels)->Ok_0.len() == statement_size(e),
{
    match e.kind {
        ExprKind::Instruction(op, size, args) => {
            let shape = operand_shape(op)->0;
            let f = operand_fields(shape, args@, labels, e.offset, shape.len())->Ok_0;
            lemma_fields_wide(shape, args@, labels, e.offset, shape.len(), f);
            assert(shape.take(shape.len() as int) =~= shape);
            assert(has_wide_immediate(op) == shape.contains(InstrArgs::Num64));
        },
        ExprKind::Data(w, vals) => {
            lemma_data_len(w, vals@, labels, e.offset, vals@.len(), statement_bytes(e, labels)->Ok_0);
        },
        _ => {},
    }
}

proof fn lemma_cursor_aligned(prog: Seq<Expr>, n: nat)
    ensures
        cursor(prog, n) % 4 == 0,
    decreases n,
{
    if n > 0 {
        let x = cursor(prog, (n - 1) as nat) + statement_size(prog[n - 1]);
        assert(((x + 3) / 4 * 4) % 4 == 0) by (nonlinear_arith);
    }
}

proof fn lemma_program_len(prog: Seq<Expr>, labels: Seq<Expr>, n: nat)
    requires
        n <= prog.len(),
        all_statements(laid_out(prog)),
        program_bytes(laid_out(prog), labels, n) is Ok,
    ensures
        program_bytes(laid_out(prog), labels, n)->Ok_0.len() == cursor(prog, n),
    decreases n,
{
    if n > 0 {
        let laid = laid_out(prog);
        lemma_program_len(prog, labels, (n - 1) as nat);
        let sb = statement_bytes(laid[n - 1], labels)->Ok_0;
        lemma_statement_len(laid[n - 1], labels);
        assert(statement_size(laid[n - 1]) == statement_size(prog[n - 1]));
        lemma_cursor_aligned(prog, (n - 1) as nat);
        let c = cursor(prog, (n - 1) as nat);
        let l = sb.len();
        assert(round4(c + l) == c + round4(l)) by (nonlinear_arith)
            requires
                c % 4 == 0,
                round4(c + l) == (c + l + 3) / 4 * 4,
                round4(l) == (l + 3) / 4 * 4,
        ;
    }
}

/// The encoded image is exactly as long as the offset pass says: its length
/// is the cursor after the last statement, so each statement's bytes start
/// at the offset that the layout gave it.
pub proof fn lemma_image_length(prog: Seq<Expr>)
    requires
        all_statements(prog),
        image(prog) is Ok,
    ensures
        image(prog)->Ok_0.len() == cursor(prog, prog.len()),
{
    let laid = laid_out(prog);
    assert forall|i: int| 0 <= i < laid.len() implies #[trigger] wf_statement(laid[i]) by {
        assert(wf_statement(prog[i]));
    }
    lemma_program_len(prog, labels_of(laid), prog.len());
}

proof fn lemma_cursor_relaid(prog: Seq<Expr>, n: nat)
    requires
        n <= prog.len(),
    ensures
        cursor(laid_out(prog), n) == cursor(prog, n),
    decreases n,
{
    if n > 0 {
        lemma_cursor_relaid(prog, (n - 1) as nat);
    }
}

/// Running the layout again over a laid-out program changes nothing, and
/// the image does not depend on sizes or offsets left by an earlier run:
/// running the pipeline a second time yields the same bytes.
pub proof fn lemma_relayout(prog: Seq<Expr>)
    ensures
        laid_out(laid_out(prog)) == laid_out(prog),
        image(laid_out(prog)) == image(prog),
{
    let laid = laid_out(prog);
    assert forall|i: int| 0 <= i < prog.len() implies #[trigger] cursor(laid, i as nat) == cursor(prog, i as nat) by {
        lemma_cursor_relaid(prog, i as nat);
    }
    assert(laid_out(laid) =~= laid);
    assert(fits(laid) == fits(prog)) by {
        if fits(prog) {
            assert forall|k: int| 0 <= k < laid.len() implies #[trigger] cursor(laid, k as nat)
                + statement_size(laid[k]) + 3 <= u64::MAX by {
                assert(cursor(prog, k as nat) + statement_size(prog[k]) + 3 <= u64::MAX);
            }
        }
        if fits(laid) {
            assert forall|k: int| 0 <= k < prog.len() implies #[trigger] cursor(prog, k as nat)
                + statement_size(prog[k]) + 3 <= u64::MAX by {
                assert(cursor(laid, k as nat) + statement_size(laid[k]) + 3 <= u64::MAX);
            }
        }
    }
}

proof fn lemma_lookup_labels_of(s: Seq<Expr>, name: Seq<char>)
    ensures
        lookup_label(labels_of(s), name) == lookup_label(s, name),
    decreases s.len(),
{
    if s.len() > 0 {
        lemma_lookup_labels_of(s.drop_first(), name);
        if s[0].kind is Label {
            let t = seq![s[0]] + labels_of(s.drop_first());
            assert(t.drop_first() =~= labels_of(s.drop_first()));
        }
    }
}

/// The name that a label definition defines.
pub open spec fn defines(e: Expr, name: Seq<char>) -> bool {
    match e.kind {
        ExprKind::Label(l) => l@ == name,
        _ => false,
    }
}

proof fn lemma_lookup_first(s: Seq<Expr>, j: int, name: Seq<char>)
    requires
        0 <= j < s.len(),
        defines(s[j], name),
        forall|k: int| 0 <= k < j ==> !#[trigger] defines(s[k], name),
    ensures
        lookup_label(s, name) == Some(s[j].offset),
    decreases j,
{
    if j > 0 {
        assert(!defines(s[0], name));
        lemma_lookup_first(s.drop_first(), j - 1, name);
    }
}

/// A reference to a label resolves to the label's final offset, wherever it
/// stands: also before the definition, so a forward reference gets the
/// offset that the layout gave the label, not zero.
pub proof fn lemma_label_resolves(prog: Seq<Expr>, j: int, r: Expr, here: u64)
    requires
        fits(prog),
        0 <= j < prog.len(),
        r.kind is Id,
        !is_here(r.kind->Id_0@),
        defines(prog[j], r.kind->Id_0@),
        forall|k: int| 0 <= k < j ==> !#[trigger] defines(prog[k], r.kind->Id_0@),
    ensures
        eval_expr(r, labels_of(laid_out(prog)), here) == Ok::<i64, AsmError>(
            (cursor(prog, j as nat) as u64) as i64,
        ),
{
    let laid = laid_out(prog);
    let name = r.kind->Id_0@;
    assert forall|k: int| 0 <= k < j implies !#[trigger] defines(laid[k], name) by {
        assert(!defines(prog[k], name));
    }
    lemma_lookup_first(laid, j, name);
    lemma_lookup_labels_of(laid, name);
}

/// What assembling a token sequence returns: the parser's error, or the
/// image of the program that the automaton builds when it accepts.
pub open spec fn assembled(toks: Seq<(Token, Span)>, r: Result<Vec<u8>, AsmError>) -> bool {
    match run(Seq::empty(), tokens_of(toks), 0) {
        ParseOutcome::Accept(f) => exists|prog: Seq<Expr>|
            #![trigger image(prog)]
            run_values(Seq::empty(), Seq::empty(), toks, 0, prog) && stacks_agree(f, prog)
                && bytes_of(r) == image(prog),
        ParseOutcome::SyntaxAt(p) => r == Err::<Vec<u8>, AsmError>(
            AsmError::SyntaxError(span_at(toks, p as int)),
        ),
        ParseOutcome::LexicalAt(p) => r == Err::<Vec<u8>, AsmError>(
            AsmError::LexicalError(span_at(toks, p as int)),
        ),
    }
}

/// Assembles a token sequence into its binary image.
pub fn assemble(tokens: Vec<(Token, Span)>) -> (r: Result<Vec<u8>, AsmError>)
    ensures
        assembled(tokens@, r),
{
    let ghost toks = tokens@;
    match parse(tokens) {
        Err(x) => Err(x),
        Ok(prog) => {
            let ghost p = prog@;
            let r = assemble_program(prog);
            proof {
                assert(stacks_agree(run(Seq::empty(), tokens_of(toks), 0)->Accept_0, p));
            }
            r
        },
    }
}

} // verus!
