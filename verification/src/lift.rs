//! The instruction lifter: pure per-opcode translation rules mapping a
//! decoded instruction and its operands into IR statements. Lifting is total
//! over opcodes — an unmodeled opcode degrades to an opaque `Asm` statement —
//! but a modeled opcode with an unsupported operand shape is a hard failure.

use vstd::prelude::*;

use crate::cfg::Function;
use crate::decode::{
    asm_lines_of, cs_disasm_lines, cs_x86, decode_all, decoded_of, Decoder, Ins, InsV, Opcode,
    Operand, OperandV,
};
use crate::image::{ElfImage, Section};
use crate::ir::{BinOpKind, Block, Expr, ExprV, Reg, SetDst, SetDstV, Stmt, StmtV};
use crate::program::Program;
use crate::LiftError;

verus! {

/// The word size, in bytes, of the modeled architecture.
pub const WORD_SIZE: i64 = 4;

/// The name of the stack-pointer register.
pub open spec fn esp_name() -> Seq<char> {
    "esp"@
}

/// The magnitude of a displacement (meaningful only away from `i64::MIN`).
pub open spec fn disp_mag(disp: i64) -> i64 {
    if disp < 0 {
        (-(disp as int)) as i64
    } else {
        disp
    }
}

/// The effective-address expression of a memory operand: base register plus
/// or minus the displacement's magnitude, the sign folded into the operator.
pub open spec fn spec_addr_expr(base: Seq<char>, disp: i64) -> ExprV {
    ExprV::BinOp {
        kind: if disp < 0 {
            BinOpKind::Sub
        } else {
            BinOpKind::Add
        },
        left: Box::new(ExprV::Reg(base)),
        right: Box::new(ExprV::Const(disp_mag(disp))),
    }
}

/// The effective address of an operand, defined exactly for memory operands
/// with a base register and a negatable displacement.
pub open spec fn spec_mem_addr(op: OperandV) -> Option<ExprV> {
    match op {
        OperandV::Mem { base: Some(b), disp } => if disp == i64::MIN {
            None
        } else {
            Some(spec_addr_expr(b, disp))
        },
        _ => None,
    }
}

/// What reading an operand yields: the register's value, the immediate, or a
/// memory read of the effective address; `None` on unsupported shapes.
pub open spec fn spec_read_operand(op: OperandV) -> Option<ExprV> {
    match op {
        OperandV::Reg(n) => Some(ExprV::Reg(n)),
        OperandV::Imm(v) => Some(ExprV::Const(v)),
        OperandV::Mem { .. } => match spec_mem_addr(op) {
            Some(a) => Some(ExprV::Mem(Box::new(a))),
            None => None,
        },
        OperandV::Other => None,
    }
}

/// What assigning to an operand targets: the register, or the memory cell at
/// the effective address; `None` on unsupported shapes.
pub open spec fn spec_set_dst(op: OperandV) -> Option<SetDstV> {
    match op {
        OperandV::Reg(n) => Some(SetDstV::Reg(n)),
        OperandV::Mem { .. } => match spec_mem_addr(op) {
            Some(a) => Some(SetDstV::Mem(a)),
            None => None,
        },
        _ => None,
    }
}

/// The single statement of a two-operand binary-operation instruction:
/// `dst := dst <op> src`.
pub open spec fn spec_lift_binop(kind: BinOpKind, ops: Seq<OperandV>) -> Option<Seq<StmtV>> {
    if ops.len() != 2 {
        None
    } else {
        match (spec_set_dst(ops[0]), spec_read_operand(ops[0]), spec_read_operand(ops[1])) {
            (Some(d), Some(l), Some(r)) => Some(
                seq![
                    StmtV::Assign {
                        dst: d,
                        val: ExprV::BinOp { kind, left: Box::new(l), right: Box::new(r) },
                    },
                ],
            ),
            _ => None,
        }
    }
}

/// The single statement of `MOV dst, src`: `dst := src`.
pub open spec fn spec_lift_mov(ops: Seq<OperandV>) -> Option<Seq<StmtV>> {
    if ops.len() != 2 {
        None
    } else {
        match (spec_set_dst(ops[0]), spec_read_operand(ops[1])) {
            (Some(d), Some(v)) => Some(seq![StmtV::Assign { dst: d, val: v }]),
            _ => None,
        }
    }
}

/// The single statement of `LEA dst, src`: `dst` receives the effective
/// address itself, never wrapped in a memory read.
pub open spec fn spec_lift_lea(ops: Seq<OperandV>) -> Option<Seq<StmtV>> {
    if ops.len() != 2 {
        None
    } else {
        match (spec_set_dst(ops[0]), spec_mem_addr(ops[1])) {
            (Some(d), Some(a)) => Some(seq![StmtV::Assign { dst: d, val: a }]),
            _ => None,
        }
    }
}

/// The two statements of `PUSH src`, in order: the stack pointer drops by one
/// word first, then the value lands at the new top of stack.
pub open spec fn spec_lift_push(ops: Seq<OperandV>) -> Option<Seq<StmtV>> {
    if ops.len() != 1 {
        None
    } else {
        match spec_read_operand(ops[0]) {
            Some(v) => Some(
                seq![
                    StmtV::Assign {
                        dst: SetDstV::Reg(esp_name()),
                        val: ExprV::BinOp {
                            kind: BinOpKind::Sub,
                            left: Box::new(ExprV::Reg(esp_name())),
                            right: Box::new(ExprV::Const(WORD_SIZE)),
                        },
                    },
                    StmtV::Assign { dst: SetDstV::Mem(ExprV::Reg(esp_name())), val: v },
                ],
            ),
            None => None,
        }
    }
}

/// The two statements of `POP dst`, in order: the load from the top of stack
/// happens first, then the stack pointer advances by one word.
pub open spec fn spec_lift_pop(ops: Seq<OperandV>) -> Option<Seq<StmtV>> {
    if ops.len() != 1 {
        None
    } else {
        match spec_set_dst(ops[0]) {
            Some(d) => Some(
                seq![
                    StmtV::Assign {
                        dst: d,
                        val: ExprV::Mem(Box::new(ExprV::Reg(esp_name()))),
                    },
                    StmtV::Assign {
                        dst: SetDstV::Reg(esp_name()),
                        val: ExprV::BinOp {
                            kind: BinOpKind::Add,
                            left: Box::new(ExprV::Reg(esp_name())),
                            right: Box::new(ExprV::Const(WORD_SIZE)),
                        },
                    },
                ],
            ),
            None => None,
        }
    }
}

/// The statements one decoded instruction lifts to: the modeled opcodes get
/// their translation rules, every other opcode degrades to a single opaque
/// `Asm` statement carrying the original encoding. `None` marks the hard
/// failure of a modeled opcode with an unsupported operand shape.
pub open spec fn spec_lift_ins(i: InsV) -> Option<Seq<StmtV>> {
    match i.opcode {
        Opcode::Mov => spec_lift_mov(i.operands),
        Opcode::Lea => spec_lift_lea(i.operands),
        Opcode::Xor => spec_lift_binop(BinOpKind::Xor, i.operands),
        Opcode::And => spec_lift_binop(BinOpKind::And, i.operands),
        Opcode::Add => spec_lift_binop(BinOpKind::Add, i.operands),
        Opcode::Push => spec_lift_push(i.operands),
        Opcode::Pop => spec_lift_pop(i.operands),
        Opcode::Other => Some(seq![StmtV::Asm(i.bytes)]),
    }
}

/// The statements of a whole instruction stream, in stream order; `None` as
/// soon as one instruction fails to lift.
pub open spec fn spec_lift_block(insns: Seq<InsV>) -> Option<Seq<StmtV>>
    decreases insns.len(),
{
    if insns.len() == 0 {
        Some(Seq::<StmtV>::empty())
    } else {
        match (spec_lift_ins(insns[0]), spec_lift_block(insns.subrange(1, insns.len() as int))) {
            (Some(a), Some(b)) => Some(a + b),
            _ => None,
        }
    }
}

/// An owned copy of a byte run.
fn copy_bytes(v: &Vec<u8>) -> (r: Vec<u8>)
    ensures
        r@ == v@,
{
    let mut r: Vec<u8> = Vec::new();
    let mut i: usize = 0;
    while i < v.len()
        invariant
            i <= v@.len(),
            r@ =~= v@.subrange(0, i as int),
        decreases v@.len() - i,
    {
        r.push(v[i]);
        i = i + 1;
    }
    proof {
        assert(r@ =~= v@);
    }
    r
}

/// The effective-address expression of a memory operand.
fn mem_addr(op: &Operand) -> (r: Result<Expr, LiftError>)
    ensures
        (match r {
            Ok(e) => spec_mem_addr(op@) == Some(e@),
            Err(x) => spec_mem_addr(op@) is None && x == LiftError::Operands,
        }),
{
    match op {
        Operand::Mem { base: Some(b), disp } => {
            if *disp == i64::MIN {
                Err(LiftError::Operands)
            } else {
                let kind = if *disp < 0 {
                    BinOpKind::Sub
                } else {
                    BinOpKind::Add
                };
                let mag = if *disp < 0 {
                    -*disp
                } else {
                    *disp
                };
                let e = Expr::BinOp {
                    kind,
                    left: Box::new(Expr::Reg(Reg(b.clone()))),
                    right: Box::new(Expr::Const(mag)),
                };
                proof {
                    reveal_with_fuel(crate::ir::expr_view, 3);
                }
                Ok(e)
            }
        },
        _ => Err(LiftError::Operands),
    }
}

/// Read an operand as an expression.
fn lift_read_operand(op: &Operand) -> (r: Result<Expr, LiftError>)
    ensures
        (match r {
            Ok(e) => spec_read_operand(op@) == Some(e@),
            Err(x) => spec_read_operand(op@) is None && x == LiftError::Operands,
        }),
{
    match op {
        Operand::Reg(n) => Ok(Expr::Reg(Reg(n.clone()))),
        Operand::Imm(v) => Ok(Expr::Const(*v)),
        Operand::Mem { .. } => match mem_addr(op) {
            Ok(a) => Ok(Expr::Mem(Box::new(a))),
            Err(x) => Err(x),
        },
        Operand::Other => Err(LiftError::Operands),
    }
}

/// Turn an operand into an assignment destination.
fn lift_set_dst(op: &Operand) -> (r: Result<SetDst, LiftError>)
    ensures
        (match r {
            Ok(d) => spec_set_dst(op@) == Some(d@),
            Err(x) => spec_set_dst(op@) is None && x == LiftError::Operands,
        }),
{
    match op {
        Operand::Reg(n) => Ok(SetDst::Reg(Reg(n.clone()))),
        Operand::Mem { .. } => match mem_addr(op) {
            Ok(a) => Ok(SetDst::Mem(a)),
            Err(x) => Err(x),
        },
        _ => Err(LiftError::Operands),
    }
}

/// The operand views of an operand list.
pub open spec fn ops_v(s: Seq<Operand>) -> Seq<OperandV> {
    s.map(|i: int, o: Operand| o@)
}

/// Lift a two-operand binary-operation instruction.
fn lift_binop(kind: BinOpKind, operands: &[Operand]) -> (r: Result<Block, LiftError>)
    ensures
        (match r {
            Ok(b) => spec_lift_binop(kind, ops_v(operands@)) == Some(b@),
            Err(x) => spec_lift_binop(kind, ops_v(operands@)) is None && x == LiftError::Operands,
        }),
{
    if operands.len() != 2 {
        return Err(LiftError::Operands);
    }
    let dst = match lift_set_dst(&operands[0]) {
        Ok(d) => d,
        Err(x) => {
            return Err(x);
        },
    };
    let left = match lift_read_operand(&operands[0]) {
        Ok(e) => e,
        Err(x) => {
            return Err(x);
        },
    };
    let right = match lift_read_operand(&operands[1]) {
        Ok(e) => e,
        Err(x) => {
            return Err(x);
        },
    };
    let b = Block(
        vec![
            Stmt::Assign {
                dst,
                val: Expr::BinOp { kind, left: Box::new(left), right: Box::new(right) },
            },
        ],
    );
    proof {
        assert(b@ =~= spec_lift_binop(kind, ops_v(operands@)).unwrap());
    }
    Ok(b)
}

/// Lift `XOR dst, src`.
pub fn lift_xor(operands: &[Operand]) -> (r: Result<Block, LiftError>)
    ensures
        (match r {
            Ok(b) => spec_lift_binop(BinOpKind::Xor, ops_v(operands@)) == Some(b@),
            Err(x) => spec_lift_binop(BinOpKind::Xor, ops_v(operands@)) is None && x
                == LiftError::Operands,
        }),
{
    lift_binop(BinOpKind::Xor, operands)
}

/// Lift `AND dst, src`.
pub fn lift_and(operands: &[Operand]) -> (r: Result<Block, LiftError>)
    ensures
        (match r {
            Ok(b) => spec_lift_binop(BinOpKind::And, ops_v(operands@)) == Some(b@),
            Err(x) => spec_lift_binop(BinOpKind::And, ops_v(operands@)) is None && x
                == LiftError::Operands,
        }),
{
    lift_binop(BinOpKind::And, operands)
}

/// Lift `ADD dst, src`.
pub fn lift_add(operands: &[Operand]) -> (r: Result<Block, LiftError>)
    ensures
        (match r {
            Ok(b) => spec_lift_binop(BinOpKind::Add, ops_v(operands@)) == Some(b@),
            Err(x) => spec_lift_binop(BinOpKind::Add, ops_v(operands@)) is None && x
                == LiftError::Operands,
        }),
{
    lift_binop(BinOpKind::Add, operands)
}

/// Lift `MOV dst, src`.
pub fn lift_mov(operands: &[Operand]) -> (r: Result<Block, LiftError>)
    ensures
        (match r {
            Ok(b) => spec_lift_mov(ops_v(operands@)) == Some(b@),
            Err(x) => spec_lift_mov(ops_v(operands@)) is None && x == LiftError::Operands,
        }),
{
    if operands.len() != 2 {
        return Err(LiftError::Operands);
    }
    let dst = match lift_set_dst(&operands[0]) {
        Ok(d) => d,
        Err(x) => {
            return Err(x);
        },
    };
    let val = match lift_read_operand(&operands[1]) {
        Ok(e) => e,
        Err(x) => {
            return Err(x);
        },
    };
    let b = Block(vec![Stmt::Assign { dst, val }]);
    proof {
        assert(b@ =~= spec_lift_mov(ops_v(operands@)).unwrap());
    }
    Ok(b)
}

/// Lift `LEA dst, src`: the destination receives the effective address
/// itself.
pub fn lift_lea(operands: &[Operand]) -> (r: Result<Block, LiftError>)
    ensures
        (match r {
            Ok(b) => spec_lift_lea(ops_v(operands@)) == Some(b@),
            Err(x) => spec_lift_lea(ops_v(operands@)) is None && x == LiftError::Operands,
        }),
{
    if operands.len() != 2 {
        return Err(LiftError::Operands);
    }
    let dst = match lift_set_dst(&operands[0]) {
        Ok(d) => d,
        Err(x) => {
            return Err(x);
        },
    };
    let val = match mem_addr(&operands[1]) {
        Ok(e) => e,
        Err(x) => {
            return Err(x);
        },
    };
    let b = Block(vec![Stmt::Assign { dst, val }]);
    proof {
        assert(b@ =~= spec_lift_lea(ops_v(operands@)).unwrap());
    }
    Ok(b)
}

/// A fresh `esp` register expression.
fn esp_reg() -> (r: Reg)
    ensures
        r@ == esp_name(),
{
    Reg("esp".to_owned())
}

/// Lift `PUSH src`: the stack pointer drops by one word before the store.
pub fn lift_push(operands: &[Operand]) -> (r: Result<Block, LiftError>)
    ensures
        (match r {
            Ok(b) => spec_lift_push(ops_v(operands@)) == Some(b@),
            Err(x) => spec_lift_push(ops_v(operands@)) is None && x == LiftError::Operands,
        }),
{
    if operands.len() != 1 {
        return Err(LiftError::Operands);
    }
    let val = match lift_read_operand(&operands[0]) {
        Ok(e) => e,
        Err(x) => {
            return Err(x);
        },
    };
    let b = Block(
        vec![
            Stmt::Assign {
                dst: SetDst::Reg(esp_reg()),
                val: Expr::BinOp {
                    kind: BinOpKind::Sub,
                    left: Box::new(Expr::Reg(esp_reg())),
                    right: Box::new(Expr::Const(WORD_SIZE)),
                },
            },
            Stmt::Assign { dst: SetDst::Mem(Expr::Reg(esp_reg())), val },
        ],
    );
    proof {
        reveal_with_fuel(crate::ir::expr_view, 4);
        assert(b@ =~= spec_lift_push(ops_v(operands@)).unwrap());
    }
    Ok(b)
}

/// Lift `POP dst`: the load from the top of stack happens before the stack
/// pointer advances.
pub fn lift_pop(operands: &[Operand]) -> (r: Result<Block, LiftError>)
    ensures
        (match r {
            Ok(b) => spec_lift_pop(ops_v(operands@)) == Some(b@),
            Err(x) => spec_lift_pop(ops_v(operands@)) is None && x == LiftError::Operands,
        }),
{
    if operands.len() != 1 {
        return Err(LiftError::Operands);
    }
    let dst = match lift_set_dst(&operands[0]) {
        Ok(d) => d,
        Err(x) => {
            return Err(x);
        },
    };
    let b = Block(
        vec![
            Stmt::Assign { dst, val: Expr::Mem(Box::new(Expr::Reg(esp_reg()))) },
            Stmt::Assign {
                dst: SetDst::Reg(esp_reg()),
                val: Expr::BinOp {
                    kind: BinOpKind::Add,
                    left: Box::new(Expr::Reg(esp_reg())),
                    right: Box::new(Expr::Const(WORD_SIZE)),
                },
            },
        ],
    );
    proof {
        reveal_with_fuel(crate::ir::expr_view, 4);
        assert(b@ =~= spec_lift_pop(ops_v(operands@)).unwrap());
    }
    Ok(b)
}

/// Lift one decoded instruction to IR.
pub fn lift_ins(ins: &Ins) -> (r: Result<Block, LiftError>)
    ensures
        (match r {
            Ok(b) => spec_lift_ins(ins@) == Some(b@),
            Err(x) => spec_lift_ins(ins@) is None && x == LiftError::Operands,
        }),
{
    match ins.opcode {
        Opcode::Mov => lift_mov(ins.operands.as_slice()),
        Opcode::Lea => lift_lea(ins.operands.as_slice()),
        Opcode::Xor => lift_xor(ins.operands.as_slice()),
        Opcode::And => lift_and(ins.operands.as_slice()),
        Opcode::Add => lift_add(ins.operands.as_slice()),
        Opcode::Push => lift_push(ins.operands.as_slice()),
        Opcode::Pop => lift_pop(ins.operands.as_slice()),
        Opcode::Other => {
            let b = Block(vec![Stmt::Asm(copy_bytes(&ins.bytes))]);
            proof {
                assert(b@ =~= spec_lift_ins(ins@).unwrap());
            }
            Ok(b)
        },
    }
}

/// Lift a whole instruction stream into one block, the statements of each
/// instruction concatenated in stream order.
pub fn lift_stream(d: &Decoder, bytes: &[u8], addr: u64) -> (r: Result<Block, LiftError>)
    ensures
        (match r {
            Ok(b) => (decoded_of(bytes@, addr) matches Some(insns) && spec_lift_block(insns)
                == Some(b@)),
            Err(x) => x == LiftError::Decode || (x == LiftError::Operands && (decoded_of(
                bytes@,
                addr,
            ) matches Some(insns) && spec_lift_block(insns) is None)),
        }),
{
    let insns = match decode_all(d, bytes, addr) {
        Ok(v) => v,
        Err(_) => {
            return Err(LiftError::Decode);
        },
    };
    let ghost insv = insns@.map(|i: int, x: Ins| x@);
    let mut stmts: Vec<Stmt> = Vec::new();
    let mut i: usize = 0;
    proof {
        assert(insv.subrange(0, insv.len() as int) =~= insv);
        if spec_lift_block(insv) is Some {
            assert(stmts@.map(|k: int, s: Stmt| s@) + spec_lift_block(insv).unwrap()
                =~= spec_lift_block(insv).unwrap());
        }
    }
    while i < insns.len()
        invariant
            i <= insns@.len(),
            decoded_of(bytes@, addr) == Some(insv),
            insv == insns@.map(|k: int, x: Ins| x@),
            spec_lift_block(insv.subrange(i as int, insv.len() as int)) is Some
                ==> spec_lift_block(insv) == Some(
                stmts@.map(|k: int, s: Stmt| s@) + spec_lift_block(
                    insv.subrange(i as int, insv.len() as int),
                ).unwrap(),
            ),
            spec_lift_block(insv.subrange(i as int, insv.len() as int)) is None
                ==> spec_lift_block(insv) is None,
        decreases insns@.len() - i,
    {
        let mut b = match lift_ins(&insns[i]) {
            Ok(b) => b,
            Err(_) => {
                proof {
                    let tail = insv.subrange(i as int, insv.len() as int);
                    assert(tail[0] == insv[i as int]);
                    assert(spec_lift_ins(tail[0]) is None);
                }
                return Err(LiftError::Operands);
            },
        };
        proof {
            let tail = insv.subrange(i as int, insv.len() as int);
            let tail2 = insv.subrange(i + 1, insv.len() as int);
            assert(tail[0] == insv[i as int]);
            assert(tail.subrange(1, tail.len() as int) =~= tail2);
        }
        let ghost prev = stmts@;
        stmts.append(&mut b.0);
        proof {
            let tail2 = insv.subrange(i + 1, insv.len() as int);
            if spec_lift_block(tail2) is Some {
                assert(stmts@.map(|k: int, s: Stmt| s@) =~= prev.map(|k: int, s: Stmt| s@)
                    + spec_lift_ins(insv[i as int]).unwrap());
                assert(stmts@.map(|k: int, s: Stmt| s@) + spec_lift_block(tail2).unwrap() =~= prev.map(
                    |k: int, s: Stmt| s@,
                ) + (spec_lift_ins(insv[i as int]).unwrap() + spec_lift_block(tail2).unwrap()));
            }
        }
        i = i + 1;
    }
    proof {
        assert(insv.subrange(insv.len() as int, insv.len() as int) =~= Seq::<InsV>::empty());
        assert(stmts@.map(|k: int, s: Stmt| s@) + Seq::<StmtV>::empty() =~= stmts@.map(
            |k: int, s: Stmt| s@,
        ));
    }
    Ok(Block(stmts))
}

/// Lift a function from bytes: one block holding the statements of the whole
/// instruction stream, placed as the sole entry node of a fresh control-flow
/// graph.
pub fn lift_func(bytes: &[u8], addr: u64) -> (r: Result<Function, LiftError>)
    ensures
        (match r {
            Ok(f) => f.wf() && (decoded_of(bytes@, addr) matches Some(insns) && (spec_lift_block(
                insns,
            ) matches Some(stmts) && f@ == seq![stmts])),
            Err(x) => x == LiftError::Decode || (x == LiftError::Operands && (decoded_of(
                bytes@,
                addr,
            ) matches Some(insns) && spec_lift_block(insns) is None)),
        }),
        decoded_of(bytes@, addr) is None ==> r is Err,
{
    let d = match cs_x86() {
        Ok(d) => d,
        Err(_) => {
            return Err(LiftError::Decode);
        },
    };
    let block = match lift_stream(&d, bytes, addr) {
        Ok(b) => b,
        Err(x) => {
            return Err(x);
        },
    };
    let ghost stmts = block@;
    let mut func = Function::new();
    func.add_block(block);
    proof {
        assert(func@ =~= seq![stmts]);
    }
    Ok(func)
}

/// Determinism of lifting: any two functions lifted from identical
/// `(bytes, address)` inputs — that is, meeting the postcondition of
/// [`lift_func`] — are structurally identical.
pub proof fn lemma_lift_deterministic(bytes: Seq<u8>, addr: u64, f1: Function, f2: Function)
    requires
        (decoded_of(bytes, addr) matches Some(insns) && (spec_lift_block(insns) matches Some(
            stmts,
        ) && f1@ == seq![stmts])),
        (decoded_of(bytes, addr) matches Some(insns) && (spec_lift_block(insns) matches Some(
            stmts,
        ) && f2@ == seq![stmts])),
    ensures
        f1@ == f2@,
{
}

/// Whether a section's virtual address range contains an address.
pub open spec fn sec_covers(sec: Section, addr: u64) -> bool {
    sec.addr <= addr < sec.addr + sec.size
}

/// The first section whose virtual address range contains `addr`.
pub open spec fn find_sec(secs: Seq<Section>, addr: u64) -> Option<Section>
    decreases secs.len(),
{
    if secs.len() == 0 {
        None
    } else if sec_covers(secs[0], addr) {
        Some(secs[0])
    } else {
        find_sec(secs.subrange(1, secs.len() as int), addr)
    }
}

/// A section whose file range lies within the image bytes.
pub open spec fn sec_in_file(elf_len: int, sec: Section) -> bool {
    sec.off + sec.size <= elf_len
}

/// The bytes of the function starting at `addr` in `sec`: the section's file
/// content from the address's offset to the section's end.
pub open spec fn func_bytes(elf: Seq<u8>, sec: Section, addr: u64) -> Seq<u8> {
    elf.subrange(sec.off + (addr - sec.addr), sec.off + sec.size)
}

/// The address-range lookup fails: no section covers `addr`, or the covering
/// section reaches past the image. On such inputs the range error is owed.
pub open spec fn sec_lookup_fails(secs: Seq<Section>, elf_len: int, addr: u64) -> bool {
    match find_sec(secs, addr) {
        None => true,
        Some(sec) => !sec_in_file(elf_len, sec),
    }
}

/// The covering section is found and in range, but the decoded stream holds
/// a modeled opcode with an unsupported operand shape.
pub open spec fn operands_fail(secs: Seq<Section>, elf: Seq<u8>, addr: u64) -> bool {
    match find_sec(secs, addr) {
        Some(sec) => sec_in_file(elf.len() as int, sec) && (match decoded_of(
            func_bytes(elf, sec, addr),
            addr,
        ) {
            Some(insns) => spec_lift_block(insns) is None,
            None => false,
        }),
        None => false,
    }
}

/// Lift the function starting at `addr`: its bytes run from that address to
/// the end of the covering section. An address no section covers, or a
/// section reaching past the image, is refused.
pub fn lift_elf_func(elf: &ElfImage, bytes: &[u8], addr: u64) -> (r: Result<Function, LiftError>)
    ensures
        (match r {
            Ok(f) => (find_sec(elf.sections@, addr) matches Some(sec) && (sec_in_file(
                bytes@.len() as int,
                sec,
            ) && (decoded_of(func_bytes(bytes@, sec, addr), addr) matches Some(insns) && (
            spec_lift_block(insns) matches Some(stmts) && f@ == seq![stmts] && f.wf())))),
            Err(x) => (x == LiftError::Range && sec_lookup_fails(
                elf.sections@,
                bytes@.len() as int,
                addr,
            )) || x == LiftError::Decode || (x == LiftError::Operands && operands_fail(
                elf.sections@,
                bytes@,
                addr,
            )),
        }),
        sec_lookup_fails(elf.sections@, bytes@.len() as int, addr) ==> r == Err::<
            Function,
            LiftError,
        >(LiftError::Range),
{
    let ghost secs = elf.sections@;
    let mut i: usize = 0;
    proof {
        assert(secs.subrange(0, secs.len() as int) =~= secs);
    }
    let mut found: Option<usize> = None;
    while i < elf.sections.len() && found.is_none()
        invariant
            i <= secs.len(),
            secs == elf.sections@,
            (match found {
                Some(j) => j == i - 1 && 0 <= j < secs.len() && find_sec(secs, addr) == Some(
                    secs[j as int],
                ) && sec_covers(secs[j as int], addr),
                None => find_sec(secs.subrange(i as int, secs.len() as int), addr) == find_sec(
                    secs,
                    addr,
                ),
            }),
        decreases secs.len() - i,
    {
        let ghost tail = secs.subrange(i as int, secs.len() as int);
        proof {
            assert(tail[0] == secs[i as int]);
            assert(tail.subrange(1, tail.len() as int) =~= secs.subrange(
                i + 1,
                secs.len() as int,
            ));
        }
        let sec = &elf.sections[i];
        if addr >= sec.addr && addr - sec.addr < sec.size {
            found = Some(i);
        }
        i = i + 1;
    }
    let j = match found {
        Some(j) => j,
        None => {
            proof {
                assert(secs.subrange(secs.len() as int, secs.len() as int) =~= Seq::<
                    Section,
                >::empty());
            }
            return Err(LiftError::Range);
        },
    };
    let sec = &elf.sections[j];
    let n = bytes.len();
    if sec.off > n as u64 || sec.size > n as u64 - sec.off {
        return Err(LiftError::Range);
    }
    let func_off = addr - sec.addr;
    let lo = (sec.off + func_off) as usize;
    let hi = (sec.off + sec.size) as usize;
    let sl = vstd::slice::slice_subrange(bytes, lo, hi);
    lift_func(sl, addr)
}

/// Lift an executable image to an IR program holding its entry function
/// under the name `_start`.
pub fn lift_elf(elf: &ElfImage, bytes: &[u8]) -> (r: Result<Program, LiftError>)
    ensures
        (match r {
            Ok(p) => p.wf() && p.funcs@.len() == 1 && p.funcs@[0].0@ == "_start"@ && (find_sec(
                elf.sections@,
                elf.entry,
            ) matches Some(sec) && (sec_in_file(bytes@.len() as int, sec) && (decoded_of(
                func_bytes(bytes@, sec, elf.entry),
                elf.entry,
            ) matches Some(insns) && (spec_lift_block(insns) matches Some(stmts)
                && p.funcs@[0].1@ == seq![stmts])))),
            Err(x) => (x == LiftError::Range && sec_lookup_fails(
                elf.sections@,
                bytes@.len() as int,
                elf.entry,
            )) || x == LiftError::Decode || (x == LiftError::Operands && operands_fail(
                elf.sections@,
                bytes@,
                elf.entry,
            )),
        }),
        sec_lookup_fails(elf.sections@, bytes@.len() as int, elf.entry) ==> r == Err::<
            Program,
            LiftError,
        >(LiftError::Range),
{
    let f = match lift_elf_func(elf, bytes, elf.entry) {
        Ok(f) => f,
        Err(x) => {
            return Err(x);
        },
    };
    let mut prog = Program::new();
    prog.insert("_start".to_owned(), f);
    Ok(prog)
}

/// Parse an executable image and lift it to an IR program.
pub fn lift_elf_bytes(bytes: &[u8]) -> (r: Result<Program, LiftError>)
    ensures
        (match r {
            Ok(p) => p.wf() && p.funcs@.len() == 1 && p.funcs@[0].0@ == "_start"@ && (
            crate::image::elf_image_of(bytes@) matches Ok(img) && (find_sec(
                img.sections@,
                img.entry,
            ) matches Some(sec) && (sec_in_file(bytes@.len() as int, sec) && (decoded_of(
                func_bytes(bytes@, sec, img.entry),
                img.entry,
            ) matches Some(insns) && (spec_lift_block(insns) matches Some(stmts)
                && p.funcs@[0].1@ == seq![stmts]))))),
            Err(x) => (x == LiftError::BadImage && crate::image::elf_image_of(bytes@) is Err) || (
            x == LiftError::Range && (crate::image::elf_image_of(bytes@) matches Ok(img)
                && sec_lookup_fails(img.sections@, bytes@.len() as int, img.entry))) || x
                == LiftError::Decode || (x == LiftError::Operands && (crate::image::elf_image_of(
                bytes@,
            ) matches Ok(img) && operands_fail(img.sections@, bytes@, img.entry))),
        }),
        crate::image::elf_image_of(bytes@) is Err ==> r == Err::<Program, LiftError>(
            LiftError::BadImage,
        ),
        (crate::image::elf_image_of(bytes@) matches Ok(img) && sec_lookup_fails(
            img.sections@,
            bytes@.len() as int,
            img.entry,
        )) ==> r == Err::<Program, LiftError>(LiftError::Range),
{
    let img = match crate::image::parse_elf(bytes) {
        Ok(img) => img,
        Err(_) => {
            return Err(LiftError::BadImage);
        },
    };
    lift_elf(&img, bytes)
}

/// The decoder's listing lines, each newline-terminated.
pub open spec fn spec_joined_lines(ls: Seq<Seq<char>>) -> Seq<char>
    decreases ls.len(),
{
    if ls.len() == 0 {
        Seq::<char>::empty()
    } else {
        ls[0] + "
"@ + spec_joined_lines(ls.subrange(1, ls.len() as int))
    }
}

/// The disassembly listing of a byte run at an address: the decoder's own
/// line for each decoded instruction, newline-terminated, in order.
pub fn lift(bytes: &[u8], addr: u64) -> (r: Result<String, LiftError>)
    ensures
        (match r {
            Ok(s) => s@ == spec_joined_lines(asm_lines_of(bytes@, addr)),
            Err(e) => e == LiftError::Decode,
        }),
{
    let d = match cs_x86() {
        Ok(d) => d,
        Err(_) => {
            return Err(LiftError::Decode);
        },
    };
    let lines = match cs_disasm_lines(&d, bytes, addr) {
        Ok(v) => v,
        Err(_) => {
            return Err(LiftError::Decode);
        },
    };
    let ghost lsv = lines@.map(|i: int, l: String| l@);
    let mut out = String::new();
    let mut i: usize = 0;
    proof {
        assert(lsv.subrange(0, lsv.len() as int) =~= lsv);
        assert(Seq::<char>::empty() + spec_joined_lines(lsv) =~= spec_joined_lines(lsv));
    }
    while i < lines.len()
        invariant
            i <= lines@.len(),
            lsv == lines@.map(|k: int, l: String| l@),
            out@ + spec_joined_lines(lsv.subrange(i as int, lsv.len() as int))
                == spec_joined_lines(lsv),
        decreases lines@.len() - i,
    {
        let ghost prev = out@;
        let ghost tail = lsv.subrange(i as int, lsv.len() as int);
        out.append(lines[i].as_str());
        out.append("
");
        proof {
            assert(tail[0] == lsv[i as int]);
            assert(tail.subrange(1, tail.len() as int) =~= lsv.subrange(i + 1, lsv.len() as int));
            assert(out@ + spec_joined_lines(lsv.subrange(i + 1, lsv.len() as int)) =~= prev
                + spec_joined_lines(tail));
        }
        i = i + 1;
    }
    proof {
        assert(lsv.subrange(lsv.len() as int, lsv.len() as int) =~= Seq::<Seq<char>>::empty());
        assert(out@ + Seq::<char>::empty() =~= out@);
    }
    Ok(out)
}

} // verus!
