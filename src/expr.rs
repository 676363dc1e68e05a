use vstd::prelude::*;

use crate::float32::{int_rounded, int_to_single, sqrt_positive, sqrt_rounded, Single};

verus! {

/// A value of a row-oriented record.
///
/// A float is held as the fields of its IEEE 754 single-precision encoding.
/// A result that is not a number is `NaN()`; a missing value stays missing
/// through arithmetic.
#[derive(Clone, Copy, Debug, PartialEq, Eq, Hash)]
pub enum NoirType {
    Int32(i32),
    Float32(Single),
    Bool(bool),
    NaN(),
    Missing(),
}

impl NoirType {
    /// Whether the value is not available: not a number, or missing.
    pub fn is_na(&self) -> (r: bool)
        ensures
            r == (*self is NaN || *self is Missing),
    {
        matches!(self, NoirType::NaN()) || matches!(self, NoirType::Missing())
    }

    /// Whether the value is not a number.
    pub fn is_nan(&self) -> (r: bool)
        ensures
            r == (*self is NaN),
    {
        matches!(self, NoirType::NaN())
    }

    /// Whether the value is missing.
    pub fn is_none(&self) -> (r: bool)
        ensures
            r == (*self is Missing),
    {
        matches!(self, NoirType::Missing())
    }

    /// The square root, rounded to the nearest single-precision number; an
    /// integer is first rounded to one. The root of a negative number, of a
    /// boolean or of not a number is not a number.
    pub fn sqrt(self) -> (r: NoirType)
        requires
            self matches NoirType::Float32(x) ==> x.wf(),
        ensures
            self matches NoirType::Int32(a) ==> {
                &&& a < 0 ==> r is NaN
                &&& a == 0 ==> r == NoirType::Float32(
                    Single { sign: false, exponent: 0, fraction: 0 },
                )
                &&& a > 0 ==> exists|y: Single|
                    #[trigger] int_rounded(a, y) && (r matches NoirType::Float32(z)
                        && sqrt_rounded(y, z))
            },
            self matches NoirType::Float32(x) ==> {
                &&& x.is_nan() ==> r is NaN
                &&& x.is_zero() ==> r == self
                &&& !x.is_nan() && !x.is_zero() && x.sign ==> r is NaN
                &&& x.is_infinite() && !x.sign ==> r == self
                &&& x.exponent < 255 && !x.is_zero() && !x.sign ==> (r matches NoirType::Float32(z)
                    && sqrt_rounded(x, z))
            },
            self is Bool ==> r is NaN,
            self is NaN ==> r is NaN,
            self is Missing ==> r is Missing,
    {
        match self {
            NoirType::Int32(a) => {
                if a < 0 {
                    NoirType::NaN()
                } else if a == 0 {
                    NoirType::Float32(Single { sign: false, exponent: 0, fraction: 0 })
                } else {
                    let y = int_to_single(a);
                    NoirType::Float32(sqrt_positive(y))
                }
            },
            NoirType::Float32(x) => {
                if x.exponent == 255 && x.fraction != 0 {
                    NoirType::NaN()
                } else if x.exponent == 0 && x.fraction == 0 {
                    self
                } else if x.sign {
                    NoirType::NaN()
                } else if x.exponent == 255 {
                    self
                } else {
                    NoirType::Float32(sqrt_positive(x))
                }
            },
            NoirType::Bool(_) => NoirType::NaN(),
            NoirType::NaN() => NoirType::NaN(),
            NoirType::Missing() => NoirType::Missing(),
        }
    }

    /// This value, or `other` where this one is missing.
    pub fn or(self, other: &NoirType) -> (r: NoirType)
        ensures
            r == if self is Missing {
                *other
            } else {
                self
            },
    {
        match self {
            NoirType::Missing() => *other,
            _ => self,
        }
    }
}

/// An operator of the expression language.
#[derive(Clone, Copy, Debug, PartialEq, Eq, Hash)]
pub enum ExprOp {
    Eq,
    NotEq,
    Lt,
    LtEq,
    Gt,
    GtEq,
    Plus,
    Minus,
    Multiply,
    Divide,
    Mod,
    And,
    Or,
    Xor,
    Floor,
    Ceil,
    Abs,
    Sqrt,
    Round,
}

/// An expression over the columns of a record.
#[derive(Debug, PartialEq, Eq, Hash)]
pub enum Expr {
    NthColumn(usize),
    Literal(NoirType),
    BinaryExpr { left: Box<Expr>, op: ExprOp, right: Box<Expr> },
    UnaryExpr { op: ExprOp, expr: Box<Expr> },
    Empty,
}

impl Clone for Expr {
    fn clone(&self) -> (r: Self)
        ensures
            r == *self,
        decreases self,
    {
        match self {
            Expr::NthColumn(n) => Expr::NthColumn(*n),
            Expr::Literal(v) => Expr::Literal(*v),
            Expr::BinaryExpr { left, op, right } => {
                let l = (**left).clone();
                let r = (**right).clone();
                Expr::BinaryExpr { left: Box::new(l), op: *op, right: Box::new(r) }
            },
            Expr::UnaryExpr { op, expr } => {
                let e = (**expr).clone();
                Expr::UnaryExpr { op: *op, expr: Box::new(e) }
            },
            Expr::Empty => Expr::Empty,
        }
    }
}

/// The expression applying `op` to `lhs` and `rhs`.
pub open spec fn binary_of(lhs: Expr, op: ExprOp, rhs: Expr) -> Expr {
    Expr::BinaryExpr { left: Box::new(lhs), op, right: Box::new(rhs) }
}

/// The expression applying `op` to `e`.
pub open spec fn unary_of(op: ExprOp, e: Expr) -> Expr {
    Expr::UnaryExpr { op, expr: Box::new(e) }
}

/// The value of column `n`.
pub fn col(n: usize) -> (r: Expr)
    ensures
        r == Expr::NthColumn(n),
{
    Expr::NthColumn(n)
}

/// `op` applied to `lhs` and `rhs`.
pub fn binary_expr(lhs: Expr, op: ExprOp, rhs: Expr) -> (r: Expr)
    ensures
        r == binary_of(lhs, op, rhs),
{
    Expr::BinaryExpr { left: Box::new(lhs), op, right: Box::new(rhs) }
}

/// `op` applied to `expr`.
pub fn unary_expr(op: ExprOp, expr: Expr) -> (r: Expr)
    ensures
        r == unary_of(op, expr),
{
    Expr::UnaryExpr { op, expr: Box::new(expr) }
}

/// The constant `value`.
pub fn lit(value: NoirType) -> (r: Expr)
    ensures
        r == Expr::Literal(value),
{
    Expr::Literal(value)
}

/// The integer constant `value`.
pub fn i(value: i32) -> (r: Expr)
    ensures
        r == Expr::Literal(NoirType::Int32(value)),
{
    Expr::Literal(NoirType::Int32(value))
}

/// The boolean constant `value`.
pub fn b(value: bool) -> (r: Expr)
    ensures
        r == Expr::Literal(NoirType::Bool(value)),
{
    Expr::Literal(NoirType::Bool(value))
}

impl Expr {
    /// The expression for this one rounded down.
    pub fn floor(self) -> (r: Expr)
        ensures
            r == unary_of(ExprOp::Floor, self),
    {
        unary_expr(ExprOp::Floor, self)
    }

    /// The expression for this one rounded up.
    pub fn ceil(self) -> (r: Expr)
        ensures
            r == unary_of(ExprOp::Ceil, self),
    {
        unary_expr(ExprOp::Ceil, self)
    }

    /// The expression for the square root of this one.
    pub fn sqrt(self) -> (r: Expr)
        ensures
            r == unary_of(ExprOp::Sqrt, self),
    {
        unary_expr(ExprOp::Sqrt, self)
    }

    /// The expression for the absolute value of this one.
    pub fn abs(self) -> (r: Expr)
        ensures
            r == unary_of(ExprOp::Abs, self),
    {
        unary_expr(ExprOp::Abs, self)
    }

    /// The expression for this one rounded to the nearest integer.
    pub fn round(self) -> (r: Expr)
        ensures
            r == unary_of(ExprOp::Round, self),
    {
        unary_expr(ExprOp::Round, self)
    }

    /// The expression for the remainder of this expression divided by `rhs`.
    pub fn modulo(self, rhs: Expr) -> (r: Expr)
        ensures
            r == binary_of(self, ExprOp::Mod, rhs),
    {
        binary_expr(self, ExprOp::Mod, rhs)
    }

    /// The expression for whether this expression equals `rhs`.
    pub fn eq(self, rhs: Expr) -> (r: Expr)
        ensures
            r == binary_of(self, ExprOp::Eq, rhs),
    {
        binary_expr(self, ExprOp::Eq, rhs)
    }

    /// The expression for whether this expression differs from `rhs`.
    pub fn neq(self, rhs: Expr) -> (r: Expr)
        ensures
            r == binary_of(self, ExprOp::NotEq, rhs),
    {
        binary_expr(self, ExprOp::NotEq, rhs)
    }

    /// The expression for the conjunction of this expression and `rhs`.
    pub fn and(self, rhs: Expr) -> (r: Expr)
        ensures
            r == binary_of(self, ExprOp::And, rhs),
    {
        binary_expr(self, ExprOp::And, rhs)
    }

    /// The expression for the disjunction of this expression and `rhs`.
    pub fn or(self, rhs: Expr) -> (r: Expr)
        ensures
            r == binary_of(self, ExprOp::Or, rhs),
    {
        binary_expr(self, ExprOp::Or, rhs)
    }

    /// The expression for the exclusive or of this expression and `rhs`.
    pub fn xor(self, rhs: Expr) -> (r: Expr)
        ensures
            r == binary_of(self, ExprOp::Xor, rhs),
    {
        binary_expr(self, ExprOp::Xor, rhs)
    }

    /// The expression for whether this expression is below `rhs`.
    pub fn lt(self, rhs: Expr) -> (r: Expr)
        ensures
            r == binary_of(self, ExprOp::Lt, rhs),
    {
        binary_expr(self, ExprOp::Lt, rhs)
    }

    /// The expression for whether this expression is at most `rhs`.
    pub fn lte(self, rhs: Expr) -> (r: Expr)
        ensures
            r == binary_of(self, ExprOp::LtEq, rhs),
    {
        binary_expr(self, ExprOp::LtEq, rhs)
    }

    /// The expression for whether this expression is above `rhs`.
    pub fn gt(self, rhs: Expr) -> (r: Expr)
        ensures
            r == binary_of(self, ExprOp::Gt, rhs),
    {
        binary_expr(self, ExprOp::Gt, rhs)
    }

    /// The expression for whether this expression is at least `rhs`.
    pub fn gte(self, rhs: Expr) -> (r: Expr)
        ensures
            r == binary_of(self, ExprOp::GtEq, rhs),
    {
        binary_expr(self, ExprOp::GtEq, rhs)
    }
}

} // verus!
