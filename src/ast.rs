use vstd::prelude::*;
use crate::class::CharClass;

verus! {

#[derive(Clone, Copy, Debug, PartialEq, Eq, Structural)]
pub enum UnaryOp {
    Star,
    Optional,
}

#[derive(Clone, Copy, Debug, PartialEq, Eq, Structural)]
pub enum BinaryOp {
    Concat,
    Alternate,
}

/// The syntax tree of a regular expression.
#[derive(Debug)]
pub enum Expr {
    Atom(CharClass),
    Unary(UnaryOp, Box<Expr>),
    Binary(BinaryOp, Box<Expr>, Box<Expr>),
}

/// The shape of a syntax tree, with the ranges of each atom.
pub enum Shape {
    Atom(Seq<crate::class::ClassRange>),
    Unary(UnaryOp, Box<Shape>),
    Binary(BinaryOp, Box<Shape>, Box<Shape>),
}

impl Expr {
    pub open spec fn shape(&self) -> Shape
        decreases self,
    {
        match self {
            Expr::Atom(c) => Shape::Atom(c.ranges@),
            Expr::Unary(op, e) => Shape::Unary(*op, Box::new(e.shape())),
            Expr::Binary(op, l, r) => Shape::Binary(*op, Box::new(l.shape()), Box::new(r.shape())),
        }
    }

    /// A copy of the tree, node for node.
    pub fn copy(&self) -> (r: Expr)
        ensures
            r.shape() == self.shape(),
        decreases self,
    {
        match self {
            Expr::Atom(c) => Expr::Atom(c.copy()),
            Expr::Unary(op, e) => Expr::Unary(*op, Box::new(e.copy())),
            Expr::Binary(op, l, r) => Expr::Binary(*op, Box::new(l.copy()), Box::new(r.copy())),
        }
    }
}

} // verus!
