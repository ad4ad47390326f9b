//! The abstract syntax tree and the annotated operator kinds.

use crate::annot::Annot;
use crate::annot::Loc;
use vstd::prelude::*;

verus! {

/// A unary operator shape.
#[derive(Debug, Clone, Copy, PartialEq, Eq, Hash)]
pub enum UniOpKind {
    /// Positive sign.
    Plus,
    /// Negative sign.
    Minus,
}

/// A unary operator together with the byte range of its sign.
pub type UniOp = Annot<UniOpKind>;

impl UniOp {
    pub fn plus(loc: Loc) -> (r: Self)
        ensures
            r == (Annot { value: UniOpKind::Plus, loc }),
    {
        Self::new(UniOpKind::Plus, loc)
    }

    pub fn minus(loc: Loc) -> (r: Self)
        ensures
            r == (Annot { value: UniOpKind::Minus, loc }),
    {
        Self::new(UniOpKind::Minus, loc)
    }
}

/// A binary operator shape.
#[derive(Debug, Clone, Copy, PartialEq, Eq, Hash)]
pub enum BinOpKind {
    /// Addition.
    Add,
    /// Subtraction.
    Sub,
    /// Multiplication.
    Mult,
    /// Division.
    Div,
}

/// A binary operator together with the byte range of its symbol.
pub type BinOp = Annot<BinOpKind>;

impl BinOp {
    pub fn add(loc: Loc) -> (r: Self)
        ensures
            r == (Annot { value: BinOpKind::Add, loc }),
    {
        Self::new(BinOpKind::Add, loc)
    }

    pub fn sub(loc: Loc) -> (r: Self)
        ensures
            r == (Annot { value: BinOpKind::Sub, loc }),
    {
        Self::new(BinOpKind::Sub, loc)
    }

    pub fn mult(loc: Loc) -> (r: Self)
        ensures
            r == (Annot { value: BinOpKind::Mult, loc }),
    {
        Self::new(BinOpKind::Mult, loc)
    }

    pub fn div(loc: Loc) -> (r: Self)
        ensures
            r == (Annot { value: BinOpKind::Div, loc }),
    {
        Self::new(BinOpKind::Div, loc)
    }
}

/// The node shapes of an expression tree. Every node owns its children.
#[derive(Debug, PartialEq, Eq, Hash)]
pub enum AstKind {
    /// An integer literal.
    Num(u64),
    /// A unary operation applied to one operand.
    UniOp { op: UniOp, e: Box<Ast> },
    /// A binary operation applied to two operands.
    BinOp { op: BinOp, l: Box<Ast>, r: Box<Ast> },
}

/// An expression tree node together with the byte range it covers.
pub type Ast = Annot<AstKind>;

impl Ast {
    pub fn num(n: u64, loc: Loc) -> (r: Self)
        ensures
            r == (Annot { value: AstKind::Num(n), loc }),
    {
        Self::new(AstKind::Num(n), loc)
    }

    pub fn uniop(op: UniOp, e: Ast, loc: Loc) -> (r: Self)
        ensures
            r == (Annot { value: AstKind::UniOp { op, e: Box::new(e) }, loc }),
    {
        Self::new(AstKind::UniOp { op, e: Box::new(e) }, loc)
    }

    pub fn binop(op: BinOp, l: Ast, r: Ast, loc: Loc) -> (res: Self)
        ensures
            res == (Annot { value: AstKind::BinOp { op, l: Box::new(l), r: Box::new(r) }, loc }),
    {
        Self::new(AstKind::BinOp { op, l: Box::new(l), r: Box::new(r) }, loc)
    }
}

/// Every node's range covers exactly its parts: a binary node's range is the
/// merge of its children's ranges, and a unary node's range is the merge of
/// the sign's range and the operand's.
pub open spec fn spans_ok(a: Ast) -> bool
    decreases a,
{
    match a.value {
        AstKind::Num(_) => true,
        AstKind::UniOp { op, e } => a.loc == op.loc.spec_merge(e.loc) && spans_ok(*e),
        AstKind::BinOp { op, l, r } => a.loc == l.loc.spec_merge(r.loc) && spans_ok(*l)
            && spans_ok(*r),
    }
}

} // verus!
