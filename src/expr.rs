//! Column handles, selectors, and symbolic polynomial expressions over them.
use crate::field::{modulus, Fe};
use vstd::prelude::*;

verus! {

/// The three kinds of column a circuit can declare.
#[derive(Clone, Copy, Debug, PartialEq, Eq, Structural)]
pub enum ColumnKind {
    /// Private per-instance witness values.
    Advice,
    /// Public inputs, supplied from outside the circuit.
    Instance,
    /// Constants fixed before witness generation, used as lookup tables.
    Fixed,
}

/// An opaque column handle: its kind and its index among columns of that kind.
#[derive(Clone, Copy, Debug, PartialEq, Eq, Structural)]
pub struct Column {
    pub kind: ColumnKind,
    pub index: usize,
}

/// A per-row boolean flag that switches constraint sets (simple) or lookups (complex) on.
#[derive(Clone, Copy, Debug, PartialEq, Eq, Structural)]
pub struct Selector {
    pub index: usize,
    pub complex: bool,
}

/// A symbolic polynomial over column queries and selectors.
#[derive(Debug)]
pub enum Expr {
    Constant(Fe),
    /// The value of a column at the current row shifted by a rotation.
    Query(Column, i64),
    /// One where the selector is enabled at the current row, zero elsewhere.
    Select(Selector),
    Neg(Box<Expr>),
    Sum(Box<Expr>, Box<Expr>),
    Product(Box<Expr>, Box<Expr>),
}

/// Whether `c` is one of `cols`.
pub fn contains_column(cols: &Vec<Column>, c: Column) -> (r: bool)
    ensures
        r == cols@.contains(c),
{
    let mut i: usize = 0;
    while i < cols.len()
        invariant
            0 <= i <= cols@.len(),
            forall|j: int| 0 <= j < i ==> cols@[j] != c,
        decreases cols@.len() - i,
    {
        if cols[i] == c {
            return true;
        }
        i = i + 1;
    }
    false
}

/// The residue of `x` modulo the field's prime.
pub open spec fn fmod(x: int) -> int {
    x % modulus()
}

impl Expr {
    pub fn constant(f: Fe) -> (r: Expr)
        ensures
            r == Expr::Constant(f),
    {
        Expr::Constant(f)
    }

    pub fn query(c: Column, rotation: i64) -> (r: Expr)
        ensures
            r == Expr::Query(c, rotation),
    {
        Expr::Query(c, rotation)
    }

    pub fn select(s: Selector) -> (r: Expr)
        ensures
            r == Expr::Select(s),
    {
        Expr::Select(s)
    }

    pub fn negate(self) -> (r: Expr)
        ensures
            r == Expr::Neg(Box::new(self)),
    {
        Expr::Neg(Box::new(self))
    }

    pub fn plus(self, o: Expr) -> (r: Expr)
        ensures
            r == Expr::Sum(Box::new(self), Box::new(o)),
    {
        Expr::Sum(Box::new(self), Box::new(o))
    }

    /// `self - o`, written as `self + (-o)`.
    pub fn minus(self, o: Expr) -> (r: Expr)
        ensures
            r == Expr::Sum(Box::new(self), Box::new(Expr::Neg(Box::new(o)))),
    {
        Expr::Sum(Box::new(self), Box::new(Expr::Neg(Box::new(o))))
    }

    pub fn times(self, o: Expr) -> (r: Expr)
        ensures
            r == Expr::Product(Box::new(self), Box::new(o)),
    {
        Expr::Product(Box::new(self), Box::new(o))
    }

    /// A structural copy.
    pub fn duplicate(&self) -> (r: Expr)
        ensures
            r == *self,
        decreases self,
    {
        match self {
            Expr::Constant(f) => Expr::Constant(*f),
            Expr::Query(c, rot) => Expr::Query(*c, *rot),
            Expr::Select(s) => Expr::Select(*s),
            Expr::Neg(a) => Expr::Neg(Box::new(a.duplicate())),
            Expr::Sum(a, b) => Expr::Sum(Box::new(a.duplicate()), Box::new(b.duplicate())),
            Expr::Product(a, b) => Expr::Product(Box::new(a.duplicate()), Box::new(b.duplicate())),
        }
    }
}

} // verus!
