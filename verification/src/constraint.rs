//! Linear constraints over the variables of a layout.
//!
//! A variable is a handle, a number. An expression is a sum of variables, each times a whole
//! coefficient, plus a constant. A constraint relates two expressions and has a strength: a
//! required one has to hold of a solution, the others are wishes that a solver follows as far
//! as the required ones allow. What it means for a constraint to hold is defined here over
//! assignments of real numbers to the variables.

use crate::metrics::Length;
use vstd::prelude::*;

verus! {

/// The handle of a variable.
pub type Variable = usize;

/// How strongly a constraint is meant, from the strongest to the weakest.
#[derive(PartialEq, Eq, Structural, Debug, Clone, Copy)]
pub enum Strength {
    Required,
    Strong,
    Medium,
    Weak,
}

/// How the two sides of a constraint relate.
#[derive(PartialEq, Eq, Structural, Debug, Clone, Copy)]
pub enum Relation {
    LessOrEqual,
    Equal,
    GreaterOrEqual,
}

/// A variable times a coefficient.
#[derive(PartialEq, Eq, Structural, Debug, Clone, Copy)]
pub struct Term {
    pub variable: Variable,
    pub coefficient: i64,
}

/// A sum of terms plus a constant.
#[derive(PartialEq, Debug)]
pub struct Expression {
    pub terms: Vec<Term>,
    pub constant: Length,
}

pub struct ExpressionView {
    pub terms: Seq<Term>,
    pub constant: Length,
}

impl View for Expression {
    type V = ExpressionView;

    open spec fn view(&self) -> ExpressionView {
        ExpressionView { terms: self.terms@, constant: self.constant }
    }
}

/// `lhs relation rhs`, meant with `strength`.
#[derive(PartialEq, Debug)]
pub struct Constraint {
    pub lhs: Expression,
    pub relation: Relation,
    pub rhs: Expression,
    pub strength: Strength,
}

pub struct ConstraintView {
    pub lhs: ExpressionView,
    pub relation: Relation,
    pub rhs: ExpressionView,
    pub strength: Strength,
}

impl View for Constraint {
    type V = ConstraintView;

    open spec fn view(&self) -> ConstraintView {
        ConstraintView {
            lhs: self.lhs@,
            relation: self.relation,
            rhs: self.rhs@,
            strength: self.strength,
        }
    }
}

/// The views of `constraints`, one by one.
pub open spec fn constraints_view(constraints: Seq<Constraint>) -> Seq<ConstraintView> {
    Seq::new(constraints.len(), |i: int| constraints[i]@)
}

/// The value of the terms under `values`.
pub open spec fn terms_value(terms: Seq<Term>, values: spec_fn(Variable) -> real) -> real
    decreases terms.len(),
{
    if terms.len() == 0 {
        0real
    } else {
        terms_value(terms.drop_last(), values) + (terms.last().coefficient as real) * values(
            terms.last().variable,
        )
    }
}

impl ExpressionView {
    /// The variable `v` alone.
    pub open spec fn of(v: Variable) -> ExpressionView {
        ExpressionView { terms: seq![Term { variable: v, coefficient: 1 }], constant: 0 }
    }

    /// The constant `c` alone.
    pub open spec fn fixed(c: Length) -> ExpressionView {
        ExpressionView { terms: Seq::empty(), constant: c }
    }

    /// `p * a + q * b + c`.
    pub open spec fn of_two(p: i64, a: Variable, q: i64, b: Variable, c: Length) -> ExpressionView {
        ExpressionView {
            terms: seq![
                Term { variable: a, coefficient: p },
                Term { variable: b, coefficient: q },
            ],
            constant: c,
        }
    }

    /// `p * a + c`.
    pub open spec fn of_one(p: i64, a: Variable, c: Length) -> ExpressionView {
        ExpressionView { terms: seq![Term { variable: a, coefficient: p }], constant: c }
    }

    /// What the expression amounts to under `values`.
    pub open spec fn value(self, values: spec_fn(Variable) -> real) -> real {
        terms_value(self.terms, values) + (self.constant as real)
    }
}

impl ConstraintView {
    /// The constraint is true under `values`.
    pub open spec fn holds(self, values: spec_fn(Variable) -> real) -> bool {
        match self.relation {
            Relation::LessOrEqual => self.lhs.value(values) <= self.rhs.value(values),
            Relation::Equal => self.lhs.value(values) == self.rhs.value(values),
            Relation::GreaterOrEqual => self.lhs.value(values) >= self.rhs.value(values),
        }
    }

    /// A required constraint between `lhs` and `rhs`.
    pub open spec fn required(lhs: ExpressionView, relation: Relation, rhs: ExpressionView) -> ConstraintView {
        ConstraintView { lhs, relation, rhs, strength: Strength::Required }
    }

    /// A strong wish that `lhs` equal `rhs`.
    pub open spec fn strong(lhs: ExpressionView, rhs: ExpressionView) -> ConstraintView {
        ConstraintView { lhs, relation: Relation::Equal, rhs, strength: Strength::Strong }
    }
}

/// `values` meets every required constraint among `constraints`.
pub open spec fn satisfies(constraints: Seq<ConstraintView>, values: spec_fn(Variable) -> real) -> bool {
    forall|i: int|
        0 <= i < constraints.len() && (#[trigger] constraints[i]).strength == Strength::Required
            ==> constraints[i].holds(values)
}

/// The value of `p * a + c`.
pub proof fn lemma_value_of_one(p: i64, a: Variable, c: Length, values: spec_fn(Variable) -> real)
    ensures
        ExpressionView::of_one(p, a, c).value(values) == (p as real) * values(a) + (c as real),
        ExpressionView::of(a).value(values) == values(a),
{
    let terms = seq![Term { variable: a, coefficient: p }];
    assert(terms.drop_last() == Seq::<Term>::empty());
    assert(terms_value(terms, values) == terms_value(terms.drop_last(), values) + (p as real)
        * values(a));
    let one = seq![Term { variable: a, coefficient: 1 }];
    assert(one.drop_last() == Seq::<Term>::empty());
    assert(terms_value(one, values) == terms_value(one.drop_last(), values) + (1i64 as real)
        * values(a));
}

/// The value of `p * a + q * b + c`.
pub proof fn lemma_value_of_two(
    p: i64,
    a: Variable,
    q: i64,
    b: Variable,
    c: Length,
    values: spec_fn(Variable) -> real,
)
    ensures
        ExpressionView::of_two(p, a, q, b, c).value(values) == (p as real) * values(a) + (
        q as real) * values(b) + (c as real),
{
    let terms = seq![Term { variable: a, coefficient: p }, Term { variable: b, coefficient: q }];
    let front = seq![Term { variable: a, coefficient: p }];
    assert(terms.drop_last() == front);
    assert(front.drop_last() == Seq::<Term>::empty());
    assert(terms_value(front, values) == terms_value(front.drop_last(), values) + (p as real)
        * values(a));
    assert(terms_value(terms, values) == terms_value(front, values) + (q as real) * values(b));
}

/// The value of a constant.
pub proof fn lemma_value_of_fixed(c: Length, values: spec_fn(Variable) -> real)
    ensures
        ExpressionView::fixed(c).value(values) == c as real,
{
}

impl Expression {
    /// The variable `v` alone.
    pub fn variable(v: Variable) -> (e: Expression)
        ensures
            e@ == ExpressionView::of(v),
    {
        let mut terms: Vec<Term> = Vec::new();
        terms.push(Term { variable: v, coefficient: 1 });
        Expression { terms, constant: 0 }
    }

    /// The constant `c` alone.
    pub fn constant(c: Length) -> (e: Expression)
        ensures
            e@ == ExpressionView::fixed(c),
    {
        Expression { terms: Vec::new(), constant: c }
    }

    /// `p * a + c`.
    pub fn one(p: i64, a: Variable, c: Length) -> (e: Expression)
        ensures
            e@ == ExpressionView::of_one(p, a, c),
    {
        let mut terms: Vec<Term> = Vec::new();
        terms.push(Term { variable: a, coefficient: p });
        Expression { terms, constant: c }
    }

    /// `p * a + q * b + c`.
    pub fn two(p: i64, a: Variable, q: i64, b: Variable, c: Length) -> (e: Expression)
        ensures
            e@ == ExpressionView::of_two(p, a, q, b, c),
    {
        let mut terms: Vec<Term> = Vec::new();
        terms.push(Term { variable: a, coefficient: p });
        terms.push(Term { variable: b, coefficient: q });
        assert(terms@ == ExpressionView::of_two(p, a, q, b, c).terms);
        Expression { terms, constant: c }
    }
}

impl Constraint {
    /// `lhs relation rhs`, meant with `strength`.
    pub fn new(lhs: Expression, relation: Relation, strength: Strength, rhs: Expression) -> (c:
        Constraint)
        ensures
            c@ == (ConstraintView { lhs: lhs@, relation, rhs: rhs@, strength }),
    {
        Constraint { lhs, relation, rhs, strength }
    }

    /// A required constraint.
    pub fn required(lhs: Expression, relation: Relation, rhs: Expression) -> (c: Constraint)
        ensures
            c@ == ConstraintView::required(lhs@, relation, rhs@),
    {
        Constraint { lhs, relation, rhs, strength: Strength::Required }
    }

    /// A strong wish for equality.
    pub fn strong(lhs: Expression, rhs: Expression) -> (c: Constraint)
        ensures
            c@ == ConstraintView::strong(lhs@, rhs@),
    {
        Constraint { lhs, relation: Relation::Equal, rhs, strength: Strength::Strong }
    }
}

} // verus!
