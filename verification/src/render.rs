//! The canonical textual rendering of the IR. The grammar is a stable
//! contract: registers render as `regs.<name>`, constants as `0x`-prefixed
//! hex, memory reads as `mem[<addr>]`, binary operations parenthesized and
//! infix, assignments as `<dst> = <val>;`, and opaque instructions as an
//! `asm { ... }` block holding the decoder's own listing of their bytes.

use vstd::prelude::*;

use crate::decode::{asm_lines_of, cs_disasm_lines, cs_x86};
use crate::hexfmt::{render_const, spec_hex};
use crate::ir::{BinOpKind, Block, Expr, ExprV, Reg, SetDst, SetDstV, Stmt, StmtV};
use crate::LiftError;

verus! {

/// The rendering of a register name.
pub open spec fn spec_render_reg(name: Seq<char>) -> Seq<char> {
    "regs."@ + name
}

/// The operator sign of a binary-operation kind.
pub open spec fn spec_op_str(kind: BinOpKind) -> Seq<char> {
    match kind {
        BinOpKind::Add => "+"@,
        BinOpKind::Sub => "-"@,
        BinOpKind::Xor => "^"@,
        BinOpKind::And => "&"@,
    }
}

/// The rendering of an expression.
pub open spec fn spec_render_expr(e: ExprV) -> Seq<char>
    decreases e,
{
    match e {
        ExprV::BinOp { kind, left, right } => "("@ + spec_render_expr(*left) + " "@ + spec_op_str(
            kind,
        ) + " "@ + spec_render_expr(*right) + ")"@,
        ExprV::Const(v) => spec_hex(v),
        ExprV::Reg(n) => spec_render_reg(n),
        ExprV::Mem(a) => "mem["@ + spec_render_expr(*a) + "]"@,
    }
}

/// The rendering of an assignment destination.
pub open spec fn spec_render_set_dst(d: SetDstV) -> Seq<char> {
    match d {
        SetDstV::Reg(n) => spec_render_reg(n),
        SetDstV::Mem(a) => "mem["@ + spec_render_expr(a) + "]"@,
    }
}

/// The decoder's listing lines, each tab-indented and newline-terminated.
pub open spec fn spec_tabbed_lines(ls: Seq<Seq<char>>) -> Seq<char>
    decreases ls.len(),
{
    if ls.len() == 0 {
        Seq::<char>::empty()
    } else {
        "\t"@ + ls[0] + "\n"@ + spec_tabbed_lines(ls.subrange(1, ls.len() as int))
    }
}

/// The rendering of a statement: an assignment as `<dst> = <val>;`, an
/// opaque instruction as an `asm { ... }` block around the listing of its
/// bytes (decoded at address zero).
pub open spec fn spec_render_stmt(s: StmtV) -> Seq<char> {
    match s {
        StmtV::Assign { dst, val } => spec_render_set_dst(dst) + " = "@ + spec_render_expr(val)
            + ";"@,
        StmtV::Asm(bytes) => "asm {\n"@ + spec_tabbed_lines(asm_lines_of(bytes, 0)) + "}"@,
    }
}

/// The rendering of a block: each statement's rendering, newline-terminated,
/// in order.
pub open spec fn spec_render_block(b: Seq<StmtV>) -> Seq<char>
    decreases b.len(),
{
    if b.len() == 0 {
        Seq::<char>::empty()
    } else {
        spec_render_stmt(b[0]) + "\n"@ + spec_render_block(b.subrange(1, b.len() as int))
    }
}

impl Reg {
    /// Render this register as `regs.<name>`.
    pub fn render(&self) -> (r: String)
        ensures
            r@ == spec_render_reg(self@),
    {
        let mut s = "regs.".to_owned();
        s.append(self.0.as_str());
        s
    }
}

impl BinOpKind {
    /// The operator sign of this kind.
    pub fn op_str(&self) -> (r: &'static str)
        ensures
            r@ == spec_op_str(*self),
    {
        match self {
            BinOpKind::Add => "+",
            BinOpKind::Sub => "-",
            BinOpKind::Xor => "^",
            BinOpKind::And => "&",
        }
    }
}

impl Expr {
    /// Render this expression.
    pub fn render(&self) -> (r: String)
        ensures
            r@ == spec_render_expr(self@),
        decreases *self,
    {
        match self {
            Expr::BinOp { kind, left, right } => {
                let mut s = "(".to_owned();
                s.append(left.render().as_str());
                s.append(" ");
                s.append(kind.op_str());
                s.append(" ");
                s.append(right.render().as_str());
                s.append(")");
                s
            },
            Expr::Const(v) => render_const(*v),
            Expr::Reg(rg) => rg.render(),
            Expr::Mem(a) => {
                let mut s = "mem[".to_owned();
                s.append(a.render().as_str());
                s.append("]");
                s
            },
        }
    }
}

impl SetDst {
    /// Render this assignment destination.
    pub fn render(&self) -> (r: String)
        ensures
            r@ == spec_render_set_dst(self@),
    {
        match self {
            SetDst::Reg(rg) => rg.render(),
            SetDst::Mem(a) => {
                let mut s = "mem[".to_owned();
                s.append(a.render().as_str());
                s.append("]");
                s
            },
        }
    }
}

impl Stmt {
    /// Render this statement. Rendering an opaque instruction invokes the
    /// decoder again purely for display, which is the one way this can fail.
    pub fn render(&self) -> (r: Result<String, LiftError>)
        ensures
            (match r {
                Ok(s) => s@ == spec_render_stmt(self@),
                Err(e) => e == LiftError::Decode,
            }),
            self@ is Assign ==> r is Ok,
    {
        match self {
            Stmt::Assign { dst, val } => {
                let mut s = dst.render();
                s.append(" = ");
                s.append(val.render().as_str());
                s.append(";");
                Ok(s)
            },
            Stmt::Asm(bytes) => {
                let d = match cs_x86() {
                    Ok(d) => d,
                    Err(_) => {
                        return Err(LiftError::Decode);
                    },
                };
                let lines = match cs_disasm_lines(&d, bytes.as_slice(), 0) {
                    Ok(v) => v,
                    Err(_) => {
                        return Err(LiftError::Decode);
                    },
                };
                let ghost lsv = lines@.map(|i: int, l: String| l@);
                let mut body = "asm {\n".to_owned();
                let mut i: usize = 0;
                proof {
                    assert(lsv.subrange(0, lsv.len() as int) =~= lsv);
                }
                while i < lines.len()
                    invariant
                        i <= lines@.len(),
                        lsv == lines@.map(|k: int, l: String| l@),
                        body@ + spec_tabbed_lines(lsv.subrange(i as int, lsv.len() as int))
                            == "asm {\n"@ + spec_tabbed_lines(lsv),
                    decreases lines@.len() - i,
                {
                    let ghost prev = body@;
                    let ghost tail = lsv.subrange(i as int, lsv.len() as int);
                    body.append("\t");
                    body.append(lines[i].as_str());
                    body.append("\n");
                    proof {
                        assert(tail[0] == lsv[i as int]);
                        assert(tail.subrange(1, tail.len() as int) =~= lsv.subrange(
                            i + 1,
                            lsv.len() as int,
                        ));
                        assert(body@ + spec_tabbed_lines(lsv.subrange(i + 1, lsv.len() as int))
                            =~= prev + spec_tabbed_lines(tail));
                    }
                    i = i + 1;
                }
                proof {
                    assert(lsv.subrange(lsv.len() as int, lsv.len() as int) =~= Seq::<
                        Seq<char>,
                    >::empty());
                    assert(body@ + Seq::<char>::empty() =~= body@);
                }
                body.append("}");
                Ok(body)
            },
        }
    }
}

impl Block {
    /// Render this block: each statement, newline-terminated, in order.
    pub fn render(&self) -> (r: Result<String, LiftError>)
        ensures
            (match r {
                Ok(s) => s@ == spec_render_block(self@),
                Err(e) => e == LiftError::Decode,
            }),
            (forall|k: int| 0 <= k < self@.len() ==> self@[k] is Assign) ==> r is Ok,
    {
        let ghost bv = self@;
        let mut out = String::new();
        let mut i: usize = 0;
        proof {
            assert(bv.subrange(0, bv.len() as int) =~= bv);
            assert(Seq::<char>::empty() + spec_render_block(bv) =~= spec_render_block(bv));
        }
        while i < self.0.len()
            invariant
                i <= self.0@.len(),
                bv == self@,
                bv.len() == self.0@.len(),
                out@ + spec_render_block(bv.subrange(i as int, bv.len() as int))
                    == spec_render_block(bv),
            decreases self.0@.len() - i,
        {
            let ghost prev = out@;
            let ghost tail = bv.subrange(i as int, bv.len() as int);
            let s = match self.0[i].render() {
                Ok(s) => s,
                Err(_) => {
                    proof {
                        assert(bv[i as int] == self.0@[i as int]@);
                    }
                    return Err(LiftError::Decode);
                },
            };
            out.append(s.as_str());
            out.append("\n");
            proof {
                assert(bv[i as int] == self.0@[i as int]@);
                assert(tail[0] == bv[i as int]);
                assert(tail.subrange(1, tail.len() as int) =~= bv.subrange(
                    i + 1,
                    bv.len() as int,
                ));
                assert(out@ + spec_render_block(bv.subrange(i + 1, bv.len() as int)) =~= prev
                    + spec_render_block(tail));
            }
            i = i + 1;
        }
        proof {
            assert(bv.subrange(bv.len() as int, bv.len() as int) =~= Seq::<StmtV>::empty());
            assert(out@ + Seq::<char>::empty() =~= out@);
        }
        Ok(out)
    }
}

} // verus!
