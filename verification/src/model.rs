//! Mixed-integer linear programs over utilisation variables, and what it
//! means for readings to satisfy one.
//!
//! A coefficient is a ratio of integers, so that a power divided by an
//! efficiency is held exactly. A reading is the value of a variable, counted
//! in parts of `UTILISATION_SCALE`. The meaning of a program is stated over
//! the reals.
use vstd::prelude::*;

use crate::UTILISATION_SCALE;

verus! {

/// What a decision variable may take as its value.
#[derive(Clone, Copy, Debug, PartialEq, Eq, Structural)]
pub enum VarKind {
    /// Any utilisation between zero and full nameplate power.
    Fraction,
    /// Zero or one.
    Binary,
}

/// How the two sides of a constraint compare.
#[derive(Clone, Copy, Debug, PartialEq, Eq, Structural)]
pub enum Relation {
    Equal,
    AtMost,
    AtLeast,
}

/// A variable with the coefficient `factor * scale / divisor`.
#[derive(Clone, Copy, Debug, PartialEq, Eq)]
pub struct Term {
    pub var: usize,
    pub factor: i32,
    pub scale: i32,
    pub divisor: i32,
}

/// An affine expression: a sum of terms and a constant.
#[derive(Debug, PartialEq, Eq)]
pub struct Affine {
    pub terms: Vec<Term>,
    pub constant: i32,
}

/// One row of a program: `lhs` compared with `rhs`.
#[derive(Debug, PartialEq, Eq)]
pub struct Constraint {
    pub lhs: Affine,
    pub relation: Relation,
    pub rhs: Affine,
}

/// A program: its variables, its constraints and the objective to minimise.
#[derive(Debug, PartialEq, Eq)]
pub struct Model {
    pub vars: Vec<VarKind>,
    pub constraints: Vec<Constraint>,
    pub objective: Affine,
}

/// What a [`Term`] stands for: a variable with the coefficient `num / den`.
pub struct TermView {
    pub var: int,
    pub num: int,
    pub den: int,
}

/// What an [`Affine`] stands for: the sum of its terms and its constant.
pub struct AffineView {
    pub terms: Seq<TermView>,
    pub constant: int,
}

/// What a [`Constraint`] stands for: `lhs` compared with `rhs`.
pub struct ConstraintView {
    pub lhs: AffineView,
    pub relation: Relation,
    pub rhs: AffineView,
}

/// What a [`Model`] stands for: the kinds of its variables in their order, its
/// constraints in their order, and the objective to minimise.
pub struct ModelView {
    pub vars: Seq<VarKind>,
    pub constraints: Seq<ConstraintView>,
    pub objective: AffineView,
}

/// The term of variable `var` with coefficient `factor * scale / divisor`.
pub open spec fn term(var: int, factor: int, scale: int, divisor: int) -> TermView {
    TermView { var, num: factor * scale, den: divisor }
}

/// The expression without terms whose value is `constant`.
pub open spec fn constant_view(constant: int) -> AffineView {
    AffineView { terms: Seq::empty(), constant }
}

/// The expression that sums `terms`.
pub open spec fn sum_view(terms: Seq<TermView>) -> AffineView {
    AffineView { terms, constant: 0 }
}

impl View for Term {
    type V = TermView;

    open spec fn view(&self) -> TermView {
        term(self.var as int, self.factor as int, self.scale as int, self.divisor as int)
    }
}

impl View for Affine {
    type V = AffineView;

    open spec fn view(&self) -> AffineView {
        AffineView {
            terms: self.terms@.map_values(|t: Term| t@),
            constant: self.constant as int,
        }
    }
}

impl View for Constraint {
    type V = ConstraintView;

    open spec fn view(&self) -> ConstraintView {
        ConstraintView { lhs: self.lhs@, relation: self.relation, rhs: self.rhs@ }
    }
}

impl View for Model {
    type V = ModelView;

    open spec fn view(&self) -> ModelView {
        ModelView {
            vars: self.vars@,
            constraints: self.constraints@.map_values(|c: Constraint| c@),
            objective: self.objective@,
        }
    }
}

/// The utilisation that a reading stands for, as a real number.
pub open spec fn share(reading: int) -> real {
    (reading as real) / (UTILISATION_SCALE as int as real)
}

/// The coefficient of a term, as a real number.
pub open spec fn coefficient(t: TermView) -> real {
    (t.num as real) / (t.den as real)
}

/// What a term contributes under the readings `a`.
pub open spec fn term_value(t: TermView, a: Seq<u32>) -> real {
    coefficient(t) * share(a[t.var] as int)
}

/// The sum of what the terms contribute under the readings `a`.
pub open spec fn terms_value(terms: Seq<TermView>, a: Seq<u32>) -> real
    decreases terms.len(),
{
    if terms.len() == 0 {
        0real
    } else {
        terms_value(terms.drop_last(), a) + term_value(terms.last(), a)
    }
}

/// The value of an expression under the readings `a`.
pub open spec fn value(e: AffineView, a: Seq<u32>) -> real {
    terms_value(e.terms, a) + (e.constant as real)
}

/// The readings `a` satisfy the constraint.
pub open spec fn holds(c: ConstraintView, a: Seq<u32>) -> bool {
    match c.relation {
        Relation::Equal => value(c.lhs, a) == value(c.rhs, a),
        Relation::AtMost => value(c.lhs, a) <= value(c.rhs, a),
        Relation::AtLeast => value(c.lhs, a) >= value(c.rhs, a),
    }
}

/// A variable of this kind may take the reading.
pub open spec fn admits(kind: VarKind, reading: u32) -> bool {
    match kind {
        VarKind::Fraction => reading <= UTILISATION_SCALE,
        VarKind::Binary => reading == 0 || reading == UTILISATION_SCALE,
    }
}

/// The readings `a` give every variable of the program an admitted value and
/// satisfy every constraint.
pub open spec fn feasible(m: ModelView, a: Seq<u32>) -> bool {
    &&& a.len() == m.vars.len()
    &&& forall|i: int| 0 <= i < m.vars.len() ==> admits(#[trigger] m.vars[i], a[i])
    &&& forall|j: int| 0 <= j < m.constraints.len() ==> holds(#[trigger] m.constraints[j], a)
}

/// The term names a variable below `count` and has a coefficient: it does
/// not divide by zero.
pub open spec fn usable(t: TermView, count: int) -> bool {
    0 <= t.var < count && t.den != 0
}

/// Every term of the expression is usable with `count` variables.
pub open spec fn scoped(e: AffineView, count: int) -> bool {
    forall|k: int| 0 <= k < e.terms.len() ==> usable(#[trigger] e.terms[k], count)
}

impl ModelView {
    /// Every term of the program names one of its variables and has a
    /// coefficient.
    pub open spec fn well_formed(self) -> bool {
        &&& scoped(self.objective, self.vars.len() as int)
        &&& forall|j: int|
            0 <= j < self.constraints.len() ==> {
                &&& scoped((#[trigger] self.constraints[j]).lhs, self.vars.len() as int)
                &&& scoped(self.constraints[j].rhs, self.vars.len() as int)
            }
    }
}

impl Affine {
    /// The expression without terms whose value is `constant`.
    pub fn constant(constant: i32) -> (e: Self)
        ensures
            e@ == constant_view(constant as int),
    {
        let e = Affine { terms: Vec::new(), constant };
        assert(e@.terms =~= Seq::empty());
        e
    }

    /// Adds one term at the end of the sum.
    pub fn push(&mut self, t: Term)
        ensures
            final(self)@ == (AffineView { terms: old(self)@.terms.push(t@), ..old(self)@ }),
    {
        self.terms.push(t);
        assert(self@.terms =~= old(self)@.terms.push(t@));
    }
}

impl Model {
    /// The program without variables and constraints whose objective is zero.
    pub fn new() -> (m: Self)
        ensures
            m@ == (ModelView {
                vars: Seq::empty(),
                constraints: Seq::empty(),
                objective: constant_view(0),
            }),
    {
        let m = Model { vars: Vec::new(), constraints: Vec::new(), objective: Affine::constant(0) };
        assert(m@.constraints =~= Seq::empty());
        m
    }

    /// Declares one more variable.
    pub fn declare(&mut self, kind: VarKind)
        ensures
            final(self)@ == (ModelView { vars: old(self)@.vars.push(kind), ..old(self)@ }),
    {
        self.vars.push(kind);
    }

    /// Adds one constraint after those that the program has.
    pub fn constrain(&mut self, c: Constraint)
        ensures
            final(self)@ == (ModelView {
                constraints: old(self)@.constraints.push(c@),
                ..old(self)@
            }),
    {
        self.constraints.push(c);
        assert(self@.constraints =~= old(self)@.constraints.push(c@));
    }

    /// Adds one term at the end of the objective.
    pub fn charge(&mut self, t: Term)
        ensures
            final(self)@ == (ModelView {
                objective: AffineView {
                    terms: old(self)@.objective.terms.push(t@),
                    ..old(self)@.objective
                },
                ..old(self)@
            }),
    {
        self.objective.push(t);
    }
}

} // verus!
