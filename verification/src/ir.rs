//! The intermediate representation: registers, expressions, statements and
//! blocks, together with the mathematical views that contracts speak of.

use vstd::prelude::*;

verus! {

/// A register, identified by its architectural name.
#[derive(Debug, PartialEq, Eq)]
pub struct Reg(pub String);

impl View for Reg {
    type V = Seq<char>;

    open spec fn view(&self) -> Seq<char> {
        self.0@
    }
}

/// The kind of a binary operation.
#[derive(Debug, Clone, Copy, PartialEq, Eq, Structural)]
pub enum BinOpKind {
    Add,
    Sub,
    Xor,
    And,
}

/// An expression: an immutable value-producing IR node.
#[derive(Debug, PartialEq, Eq)]
pub enum Expr {
    /// A binary operation over two sub-expressions.
    BinOp { kind: BinOpKind, left: Box<Expr>, right: Box<Expr> },
    /// A constant value.
    Const(i64),
    /// The current symbolic value of a register.
    Reg(Reg),
    /// The value stored at the address the inner expression evaluates to.
    Mem(Box<Expr>),
}

/// Mathematical model of an [`Expr`]: register names appear as character
/// sequences.
pub enum ExprV {
    BinOp { kind: BinOpKind, left: Box<ExprV>, right: Box<ExprV> },
    Const(i64),
    Reg(Seq<char>),
    Mem(Box<ExprV>),
}

/// The model of an expression tree.
pub open spec fn expr_view(e: Expr) -> ExprV
    decreases e,
{
    match e {
        Expr::BinOp { kind, left, right } => ExprV::BinOp {
            kind,
            left: Box::new(expr_view(*left)),
            right: Box::new(expr_view(*right)),
        },
        Expr::Const(v) => ExprV::Const(v),
        Expr::Reg(r) => ExprV::Reg(r@),
        Expr::Mem(addr) => ExprV::Mem(Box::new(expr_view(*addr))),
    }
}

impl View for Expr {
    type V = ExprV;

    open spec fn view(&self) -> ExprV {
        expr_view(*self)
    }
}

impl Expr {
    /// A structurally identical copy of this expression.
    pub fn duplicate(&self) -> (r: Expr)
        ensures
            r@ == self@,
        decreases *self,
    {
        match self {
            Expr::BinOp { kind, left, right } => Expr::BinOp {
                kind: *kind,
                left: Box::new(left.duplicate()),
                right: Box::new(right.duplicate()),
            },
            Expr::Const(v) => Expr::Const(*v),
            Expr::Reg(r) => Expr::Reg(Reg(r.0.clone())),
            Expr::Mem(a) => Expr::Mem(Box::new(a.duplicate())),
        }
    }
}

/// The destination of an assignment.
#[derive(Debug, PartialEq, Eq)]
pub enum SetDst {
    /// Assignment to a register.
    Reg(Reg),
    /// Assignment to the memory address the expression evaluates to.
    Mem(Expr),
}

/// Mathematical model of a [`SetDst`].
pub enum SetDstV {
    Reg(Seq<char>),
    Mem(ExprV),
}

impl View for SetDst {
    type V = SetDstV;

    open spec fn view(&self) -> SetDstV {
        match *self {
            SetDst::Reg(r) => SetDstV::Reg(r@),
            SetDst::Mem(addr) => SetDstV::Mem(expr_view(addr)),
        }
    }
}

/// A statement: one effect of an instruction.
#[derive(Debug, PartialEq, Eq)]
pub enum Stmt {
    /// Assign `val` to `dst`.
    Assign { dst: SetDst, val: Expr },
    /// An untranslated instruction, carrying its original encoding verbatim.
    Asm(Vec<u8>),
}

/// Mathematical model of a [`Stmt`].
pub enum StmtV {
    Assign { dst: SetDstV, val: ExprV },
    Asm(Seq<u8>),
}

impl View for Stmt {
    type V = StmtV;

    open spec fn view(&self) -> StmtV {
        match self {
            Stmt::Assign { dst, val } => StmtV::Assign { dst: dst@, val: val@ },
            Stmt::Asm(bytes) => StmtV::Asm(bytes@),
        }
    }
}

/// An ordered sequence of statements; the order is semantically significant.
#[derive(Debug, PartialEq, Eq)]
pub struct Block(pub Vec<Stmt>);

impl View for Block {
    type V = Seq<StmtV>;

    open spec fn view(&self) -> Seq<StmtV> {
        self.0@.map(|i: int, s: Stmt| s@)
    }
}

} // verus!
