//! The boundary to the native instruction decoder (capstone). Decoded
//! instructions are handed to the rest of the library as plain values: an
//! opcode of this crate's own closed instruction-kind set, an operand list,
//! and the instruction's raw byte span.

use capstone::arch::x86::X86Operand;
use capstone::arch::BuildsCapstone;
use capstone::arch::DetailsArchInsn;
use capstone::arch::BuildsCapstoneSyntax;

use vstd::prelude::*;

use crate::LiftError;

verus! {

#[verifier::external_type_specification]
#[verifier::external_body]
pub struct ExCapstone(capstone::Capstone);

#[verifier::external_type_specification]
#[verifier::external_body]
pub struct ExX86Operand(X86Operand);

/// This crate's closed instruction-kind set: the opcodes with modeled
/// semantics, and `Other` for everything else.
#[derive(Debug, Clone, Copy, PartialEq, Eq, Structural)]
pub enum Opcode {
    Mov,
    Lea,
    Xor,
    And,
    Add,
    Push,
    Pop,
    Other,
}

/// A decoded operand, as plain values: the decoder's register names, an
/// immediate, or a memory reference through a base register plus a
/// displacement. `Other` stands for every operand form the decoder can
/// report but the lifter does not model.
#[derive(Debug, PartialEq, Eq)]
pub enum Operand {
    Reg(String),
    Imm(i64),
    Mem { base: Option<String>, disp: i64 },
    Other,
}

/// Mathematical model of an [`Operand`].
pub enum OperandV {
    Reg(Seq<char>),
    Imm(i64),
    Mem { base: Option<Seq<char>>, disp: i64 },
    Other,
}

impl View for Operand {
    type V = OperandV;

    open spec fn view(&self) -> OperandV {
        match self {
            Operand::Reg(n) => OperandV::Reg(n@),
            Operand::Imm(v) => OperandV::Imm(*v),
            Operand::Mem { base, disp } => OperandV::Mem {
                base: match base {
                    Some(n) => Some(n@),
                    None => None,
                },
                disp: *disp,
            },
            Operand::Other => OperandV::Other,
        }
    }
}

/// One decoded instruction, as plain values.
#[derive(Debug, PartialEq, Eq)]
pub struct Ins {
    /// The instruction kind.
    pub opcode: Opcode,
    /// The instruction's raw encoding, byte for byte.
    pub bytes: Vec<u8>,
    /// The ordered operand list.
    pub operands: Vec<Operand>,
}

/// Mathematical model of an [`Ins`].
pub struct InsV {
    pub opcode: Opcode,
    pub bytes: Seq<u8>,
    pub operands: Seq<OperandV>,
}

impl View for Ins {
    type V = InsV;

    open spec fn view(&self) -> InsV {
        InsV {
            opcode: self.opcode,
            bytes: self.bytes@,
            operands: self.operands@.map(|i: int, o: Operand| o@),
        }
    }
}

/// One instruction as the decoder reports it: the decoder-internal numeric
/// id, the raw bytes, and the decoder's own operand structures.
pub struct CsIns {
    /// The decoder-internal instruction id.
    pub id: u32,
    /// The instruction's raw encoding, byte for byte.
    pub bytes: Vec<u8>,
    /// The decoder's operand structures.
    pub operands: Vec<X86Operand>,
}

/// The instruction-kind this crate files a decoder-internal id under.
pub uninterp spec fn opcode_of(id: u32) -> Opcode;

/// What a decoder operand structure holds, as plain values.
pub uninterp spec fn operand_of(op: X86Operand) -> OperandV;

/// The instruction sequence that decoding `bytes` at `addr` yields, or `None`
/// where the decoder fails; decoding is a function of these two arguments
/// alone.
pub uninterp spec fn decoded_of(bytes: Seq<u8>, addr: u64) -> Option<Seq<InsV>>;

/// The disassembly listing of `bytes` at `addr`: the decoder's own textual
/// line for each decoded instruction, in order. A function of these two
/// arguments alone.
pub uninterp spec fn asm_lines_of(bytes: Seq<u8>, addr: u64) -> Seq<Seq<char>>;

/// What one decoder instruction stands for, through the names above.
pub open spec fn ins_of_cs(c: CsIns) -> InsV {
    InsV {
        opcode: opcode_of(c.id),
        bytes: c.bytes@,
        operands: c.operands@.map(|i: int, o: X86Operand| operand_of(o)),
    }
}

/// A decoder session for 32-bit x86 with Intel syntax, read-only after
/// construction and safe to reuse across lift calls.
pub struct Decoder {
    cs: capstone::Capstone,
}

/// Relies on capstone's builder (`Capstone::new().x86()...build()`): it
/// either yields a 32-bit x86 decoder with detail enabled or fails.
#[verifier::external_body]
pub(crate) fn cs_x86() -> (r: Result<Decoder, LiftError>) {
    match capstone::Capstone::new().x86().mode(capstone::arch::x86::ArchMode::Mode32).syntax(
        capstone::arch::x86::ArchSyntax::Intel,
    ).detail(true).build() {
        Ok(cs) => Ok(Decoder { cs }),
        Err(_) => Err(LiftError::Decode),
    }
}

/// Relies on capstone's `disasm_all` and `insn_detail`: for a fixed decoder
/// configuration a successful decode is deterministic in `(bytes, addr)`, and
/// each decoded instruction carries its id, its raw byte span and its operand
/// structures.
#[verifier::external_body]
fn cs_decode(d: &Decoder, bytes: &[u8], addr: u64) -> (r: Result<Vec<CsIns>, LiftError>)
    ensures
        (match r {
            Ok(v) => decoded_of(bytes@, addr) == Some(v@.map(|i: int, c: CsIns| ins_of_cs(c))),
            Err(e) => e == LiftError::Decode,
        }),
{
    let insns = match d.cs.disasm_all(bytes, addr) {
        Ok(i) => i,
        Err(_) => return Err(LiftError::Decode),
    };
    let mut out: Vec<CsIns> = Vec::new();
    for ins in insns.iter() {
        let Ok(detail) = d.cs.insn_detail(ins) else {
            return Err(LiftError::Decode);
        };
        let capstone::arch::ArchDetail::X86Detail(x) = detail.arch_detail() else {
            return Err(LiftError::Decode);
        };
        out.push(CsIns { id: ins.id().0, bytes: ins.bytes().to_vec(), operands: x.operands().collect() });
    }
    Ok(out)
}

/// Relies on capstone's `x86_insn` id space: each modeled opcode is filed
/// under its own kind, every other id under `Other`.
#[verifier::external_body]
fn conv_opcode(id: u32) -> (r: Opcode)
    ensures
        r == opcode_of(id),
{
    match capstone::arch::x86::X86Insn::from(id) {
        capstone::arch::x86::X86Insn::X86_INS_MOV => Opcode::Mov,
        capstone::arch::x86::X86Insn::X86_INS_LEA => Opcode::Lea,
        capstone::arch::x86::X86Insn::X86_INS_XOR => Opcode::Xor,
        capstone::arch::x86::X86Insn::X86_INS_AND => Opcode::And,
        capstone::arch::x86::X86Insn::X86_INS_ADD => Opcode::Add,
        capstone::arch::x86::X86Insn::X86_INS_PUSH => Opcode::Push,
        capstone::arch::x86::X86Insn::X86_INS_POP => Opcode::Pop,
        _ => Opcode::Other,
    }
}

/// Relies on capstone's `X86OperandType` and `reg_name`: registers and
/// memory bases are reported by name, immediates and displacements by value.
#[verifier::external_body]
fn conv_operand(d: &Decoder, op: &X86Operand) -> (r: Operand)
    ensures
        r@ == operand_of(*op),
{
    match &op.op_type {
        capstone::arch::x86::X86OperandType::Reg(id) => match d.cs.reg_name(*id) {
            Some(n) => Operand::Reg(n),
            None => Operand::Other,
        },
        capstone::arch::x86::X86OperandType::Imm(v) => Operand::Imm(*v),
        capstone::arch::x86::X86OperandType::Mem(m) => Operand::Mem {
            base: d.cs.reg_name(m.base()),
            disp: m.disp(),
        },
        capstone::arch::x86::X86OperandType::Invalid => Operand::Other,
    }
}

/// Relies on capstone's `Display` for decoded instructions: one textual line
/// per instruction, deterministic in the bytes and the start address.
#[verifier::external_body]
pub(crate) fn cs_disasm_lines(d: &Decoder, bytes: &[u8], addr: u64) -> (r: Result<
    Vec<String>,
    LiftError,
>)
    ensures
        (match r {
            Ok(v) => v@.map(|i: int, s: String| s@) == asm_lines_of(bytes@, addr),
            Err(e) => e == LiftError::Decode,
        }),
{
    let insns = match d.cs.disasm_all(bytes, addr) {
        Ok(i) => i,
        Err(_) => return Err(LiftError::Decode),
    };
    Ok(insns.iter().map(|ins| format!("{}", ins)).collect())
}

/// Decode `bytes` at `addr` into this crate's instruction records. A decode
/// that succeeds yields exactly what `decoded_of` names, so any two
/// successful decodes of the same input agree.
pub fn decode_all(d: &Decoder, bytes: &[u8], addr: u64) -> (r: Result<Vec<Ins>, LiftError>)
    ensures
        (match r {
            Ok(v) => decoded_of(bytes@, addr) == Some(v@.map(|i: int, x: Ins| x@)),
            Err(e) => e == LiftError::Decode,
        }),
{
    let raw = match cs_decode(d, bytes, addr) {
        Ok(v) => v,
        Err(_) => {
            return Err(LiftError::Decode);
        },
    };
    let mut out: Vec<Ins> = Vec::new();
    let mut i: usize = 0;
    while i < raw.len()
        invariant
            i <= raw@.len(),
            out@.len() == i,
            forall|k: int| 0 <= k < i ==> (#[trigger] out@[k])@ == ins_of_cs(raw@[k]),
        decreases raw@.len() - i,
    {
        let c = &raw[i];
        let mut ops: Vec<Operand> = Vec::new();
        let mut j: usize = 0;
        while j < c.operands.len()
            invariant
                j <= c.operands@.len(),
                ops@.len() == j,
                forall|k: int| 0 <= k < j ==> (#[trigger] ops@[k])@ == operand_of(
                    c.operands@[k],
                ),
            decreases c.operands@.len() - j,
        {
            ops.push(conv_operand(d, &c.operands[j]));
            j = j + 1;
        }
        let mut bs: Vec<u8> = Vec::new();
        let mut j2: usize = 0;
        while j2 < c.bytes.len()
            invariant
                j2 <= c.bytes@.len(),
                bs@ =~= c.bytes@.subrange(0, j2 as int),
            decreases c.bytes@.len() - j2,
        {
            bs.push(c.bytes[j2]);
            j2 = j2 + 1;
        }
        let ins = Ins { opcode: conv_opcode(c.id), bytes: bs, operands: ops };
        proof {
            assert(ins.bytes@ =~= c.bytes@);
            assert(ins.operands@.map(|k: int, o: Operand| o@) =~= c.operands@.map(
                |k: int, o: X86Operand| operand_of(o),
            ));
        }
        out.push(ins);
        i = i + 1;
    }
    proof {
        assert(out@.map(|k: int, x: Ins| x@) =~= raw@.map(|k: int, c: CsIns| ins_of_cs(c)));
    }
    Ok(out)
}

} // verus!
