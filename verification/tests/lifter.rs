use angr_bad::decode::Operand;
use angr_bad::image::{ElfImage, Section};
use angr_bad::ir::{Expr, Stmt};
use angr_bad::lift::{
    lift, lift_add, lift_and, lift_elf, lift_elf_func, lift_func, lift_lea, lift_mov, lift_pop,
    lift_push, lift_xor,
};
use angr_bad::LiftError;

fn reg(n: &str) -> Operand {
    Operand::Reg(n.to_string())
}

#[test]
fn push_ordering() {
    let b = lift_push(&[reg("eax")]).unwrap();
    assert_eq!(b.0.len(), 2);
    assert_eq!(b.0[0].render().unwrap(), "regs.esp = (regs.esp - 0x4);");
    assert_eq!(b.0[1].render().unwrap(), "mem[regs.esp] = regs.eax;");
}

#[test]
fn pop_ordering() {
    let b = lift_pop(&[reg("eax")]).unwrap();
    assert_eq!(b.0.len(), 2);
    assert_eq!(b.0[0].render().unwrap(), "regs.eax = mem[regs.esp];");
    assert_eq!(b.0[1].render().unwrap(), "regs.esp = (regs.esp + 0x4);");
}

#[test]
fn xor_self_clear() {
    let b = lift_xor(&[reg("eax"), reg("eax")]).unwrap();
    assert_eq!(b.0.len(), 1);
    assert_eq!(b.0[0].render().unwrap(), "regs.eax = (regs.eax ^ regs.eax);");
}

#[test]
fn xor_self_clear_decoded() {
    // 31 C0 is XOR eax, eax.
    let f = lift_func(&[0x31, 0xc0], 0).unwrap();
    assert_eq!(f.render().unwrap(), "0:\nregs.eax = (regs.eax ^ regs.eax);\n");
}

#[test]
fn push_decoded() {
    // 50 is PUSH eax.
    let f = lift_func(&[0x50], 0).unwrap();
    assert_eq!(
        f.render().unwrap(),
        "0:\nregs.esp = (regs.esp - 0x4);\nmem[regs.esp] = regs.eax;\n"
    );
}

#[test]
fn pop_decoded() {
    // 58 is POP eax.
    let f = lift_func(&[0x58], 0).unwrap();
    assert_eq!(
        f.render().unwrap(),
        "0:\nregs.eax = mem[regs.esp];\nregs.esp = (regs.esp + 0x4);\n"
    );
}

#[test]
fn determinism() {
    let bytes = [0x50, 0x31, 0xc0, 0x58, 0x90];
    let f1 = lift_func(&bytes, 0x1000).unwrap();
    let f2 = lift_func(&bytes, 0x1000).unwrap();
    assert_eq!(f1.block_count(), f2.block_count());
    assert_eq!(f1.block_at(0), f2.block_at(0));
}

#[test]
fn fallback_asm() {
    // 90 is NOP, which is outside the modeled opcode set.
    let f = lift_func(&[0x90], 0).unwrap();
    let b = f.block_at(0);
    assert_eq!(b.0.len(), 1);
    assert_eq!(b.0[0], Stmt::Asm(vec![0x90]));
}

#[test]
fn fallback_asm_render() {
    let s = Stmt::Asm(vec![0x90]);
    assert_eq!(s.render().unwrap(), "asm {\n\t0x0: nop\n}");
}

#[test]
fn mov_mem_operand_decoded() {
    // 8B 43 04 is MOV eax, [ebx + 4].
    let f = lift_func(&[0x8b, 0x43, 0x04], 0).unwrap();
    assert_eq!(f.render().unwrap(), "0:\nregs.eax = mem[(regs.ebx + 0x4)];\n");
}

#[test]
fn mov_negative_displacement_decoded() {
    // 8B 43 FC is MOV eax, [ebx - 4]: the sign folds into the operator.
    let f = lift_func(&[0x8b, 0x43, 0xfc], 0).unwrap();
    assert_eq!(f.render().unwrap(), "0:\nregs.eax = mem[(regs.ebx - 0x4)];\n");
}

#[test]
fn add_and_render() {
    let b = lift_add(&[reg("eax"), Operand::Imm(1)]).unwrap();
    assert_eq!(b.0[0].render().unwrap(), "regs.eax = (regs.eax + 0x1);");
    let b = lift_and(&[reg("ecx"), reg("edx")]).unwrap();
    assert_eq!(b.0[0].render().unwrap(), "regs.ecx = (regs.ecx & regs.edx);");
}

#[test]
fn mov_immediate() {
    let b = lift_mov(&[reg("eax"), Operand::Imm(-1)]).unwrap();
    assert_eq!(b.0[0].render().unwrap(), "regs.eax = 0xffffffffffffffff;");
}

#[test]
fn lea_never_wraps() {
    let b = lift_lea(&[
        reg("eax"),
        Operand::Mem { base: Some("ebx".to_string()), disp: 8 },
    ])
    .unwrap();
    assert_eq!(b.0[0].render().unwrap(), "regs.eax = (regs.ebx + 0x8);");
}

#[test]
fn operand_shape_errors() {
    assert_eq!(lift_push(&[]).unwrap_err(), LiftError::Operands);
    assert_eq!(lift_pop(&[reg("eax"), reg("ebx")]).unwrap_err(), LiftError::Operands);
    assert_eq!(
        lift_mov(&[Operand::Other, reg("eax")]).unwrap_err(),
        LiftError::Operands
    );
    assert_eq!(
        lift_lea(&[reg("eax"), reg("ebx")]).unwrap_err(),
        LiftError::Operands
    );
    assert_eq!(
        lift_xor(&[reg("eax"), Operand::Mem { base: None, disp: 3 }]).unwrap_err(),
        LiftError::Operands
    );
}

#[test]
fn hex_rendering() {
    assert_eq!(Expr::Const(0).render(), "0x0");
    assert_eq!(Expr::Const(255).render(), "0xff");
    assert_eq!(Expr::Const(-1).render(), "0xffffffffffffffff");
    assert_eq!(Expr::Const(4096).render(), "0x1000");
}

#[test]
fn listing() {
    assert_eq!(lift(&[0x50], 0x1000).unwrap(), "0x1000: push eax\n");
}

#[test]
fn elf_func_without_section() {
    let img = ElfImage { entry: 0x1000, segments: vec![], sections: vec![] };
    let r = lift_elf_func(&img, &[], 0x1000);
    assert!(matches!(r, Err(LiftError::Range)));
}

#[test]
fn elf_entry_lifted() {
    let bytes = [0x31, 0xc0];
    let img = ElfImage {
        entry: 0x1000,
        segments: vec![],
        sections: vec![Section { addr: 0x1000, off: 0, size: 2 }],
    };
    let p = lift_elf(&img, &bytes).unwrap();
    assert_eq!(
        p.render().unwrap(),
        "fn _start():\n0:\nregs.eax = (regs.eax ^ regs.eax);\n"
    );
}
