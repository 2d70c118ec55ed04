//! Hands a program to the `good_lp` crate, which solves it with its `microlp`
//! backend, and reads the solution back.
//!
//! The solver works in floating point. Nothing is claimed of the values that
//! it returns: they come back as bit patterns, and the rest of the library is
//! verified for every bit pattern.
use vstd::prelude::*;

use crate::model::{scoped, usable, Affine, Model, Relation, Term, VarKind};

verus! {

#[verifier::external_type_specification]
#[verifier::external_body]
pub struct ExVariable(good_lp::Variable);

#[verifier::external_type_specification]
#[verifier::external_body]
pub struct ExProblemVariables(good_lp::ProblemVariables);

#[verifier::external_type_specification]
#[verifier::external_body]
pub struct ExExpression(good_lp::Expression);

#[verifier::external_type_specification]
#[verifier::external_body]
pub struct ExMicroLpProblem(good_lp::solvers::microlp::MicroLpProblem);

#[verifier::external_type_specification]
#[verifier::external_body]
pub struct ExMicroLpSolution(good_lp::solvers::microlp::MicroLpSolution);

#[verifier::external_type_specification]
#[verifier::external_body]
pub struct ExResolutionError(good_lp::ResolutionError);

/// The position that a `good_lp` variable holds: the number of variables that
/// its problem had when it was added.
pub uninterp spec fn variable_index(v: good_lp::Variable) -> nat;

/// The variables that were added to a `good_lp` list of variables, in the
/// order in which they were added: `true` for one that takes integer values
/// only.
pub uninterp spec fn declared(p: good_lp::ProblemVariables) -> Seq<bool>;

/// The positions of the variables that have a coefficient in a `good_lp`
/// expression.
pub uninterp spec fn mentioned(e: good_lp::Expression) -> Set<nat>;

/// The variables of a `microlp` problem, as in [`declared`].
pub uninterp spec fn problem_vars(m: good_lp::solvers::microlp::MicroLpProblem) -> Seq<bool>;

/// The variables of a `microlp` solution, as in [`declared`].
pub uninterp spec fn solution_vars(s: good_lp::solvers::microlp::MicroLpSolution) -> Seq<bool>;

/// Why no solution was found.
#[derive(Debug, PartialEq, Eq)]
pub enum SolverFailure {
    /// A term of the program names a variable that the program does not
    /// have, or divides by zero; the solver was not called.
    Malformed,
    /// No assignment satisfies all constraints.
    Infeasible,
    /// The objective can be made arbitrarily small.
    Unbounded,
    /// The solver gave up, with its own message.
    Other(String),
}

/// Every position that the expression mentions is below `count`.
spec fn reaches_below(e: good_lp::Expression, count: nat) -> bool {
    forall|k: nat| mentioned(e).contains(k) ==> k < count
}

/// `ProblemVariables::new`: a list without variables.
#[verifier::external_body]
fn new_problem() -> (p: good_lp::ProblemVariables)
    ensures
        declared(p) == Seq::<bool>::empty(),
{
    good_lp::ProblemVariables::new()
}

/// `ProblemVariables::add` of `variable().min(lower).max(upper)`: the list
/// gains one variable that is not restricted to integers, and the handle
/// returned holds its position.
#[verifier::external_body]
fn add_continuous(p: &mut good_lp::ProblemVariables, lower: i32, upper: i32) -> (v:
    good_lp::Variable)
    ensures
        variable_index(v) == declared(*old(p)).len(),
        declared(*final(p)) == declared(*old(p)).push(false),
{
    p.add(good_lp::variable().min(lower).max(upper))
}

/// `ProblemVariables::add` of `variable().binary()`: the list gains one
/// integer variable, and the handle returned holds its position.
#[verifier::external_body]
fn add_binary(p: &mut good_lp::ProblemVariables) -> (v: good_lp::Variable)
    ensures
        variable_index(v) == declared(*old(p)).len(),
        declared(*final(p)) == declared(*old(p)).push(true),
{
    p.add(good_lp::variable().binary())
}

/// `Expression::from` of an integer: an expression that mentions no variable.
#[verifier::external_body]
fn constant_expression(constant: i32) -> (e: good_lp::Expression)
    ensures
        mentioned(e) == Set::<nat>::empty(),
{
    good_lp::Expression::from(constant)
}

/// `+=` of `v * factor * scale / divisor` on an expression: the expression
/// then mentions `v` besides what it mentioned before. A divisor of zero
/// would give a coefficient that is no finite number, on which the solver
/// panics.
#[verifier::external_body]
fn add_term(e: &mut good_lp::Expression, v: good_lp::Variable, factor: i32, scale: i32, divisor: i32)
    requires
        divisor != 0,
    ensures
        mentioned(*final(e)) == mentioned(*old(e)).insert(variable_index(v)),
{
    *e += v * factor * scale / divisor;
}

/// `ProblemVariables::minimise` and `UnsolvedProblem::using` with `microlp`:
/// a problem with the variables of the list. `minimise` panics where the
/// objective has more coefficients than the list has variables.
#[verifier::external_body]
fn minimise(p: good_lp::ProblemVariables, objective: good_lp::Expression) -> (m:
    good_lp::solvers::microlp::MicroLpProblem)
    requires
        reaches_below(objective, declared(p).len()),
    ensures
        problem_vars(m) == declared(p),
{
    p.minimise(objective).using(good_lp::microlp)
}

/// `SolverModel::add_constraint` of `lhs.eq(rhs)`: the variables of the
/// problem stay as they are. It panics on a variable that the problem does
/// not have.
#[verifier::external_body]
fn require_equal(
    m: &mut good_lp::solvers::microlp::MicroLpProblem,
    lhs: good_lp::Expression,
    rhs: good_lp::Expression,
)
    requires
        reaches_below(lhs, problem_vars(*old(m)).len()),
        reaches_below(rhs, problem_vars(*old(m)).len()),
    ensures
        problem_vars(*final(m)) == problem_vars(*old(m)),
{
    good_lp::SolverModel::add_constraint(m, lhs.eq(rhs));
}

/// `SolverModel::add_constraint` of `lhs.leq(rhs)`: the variables of the
/// problem stay as they are. It panics on a variable that the problem does
/// not have.
#[verifier::external_body]
fn require_at_most(
    m: &mut good_lp::solvers::microlp::MicroLpProblem,
    lhs: good_lp::Expression,
    rhs: good_lp::Expression,
)
    requires
        reaches_below(lhs, problem_vars(*old(m)).len()),
        reaches_below(rhs, problem_vars(*old(m)).len()),
    ensures
        problem_vars(*final(m)) == problem_vars(*old(m)),
{
    good_lp::SolverModel::add_constraint(m, lhs.leq(rhs));
}

/// `SolverModel::add_constraint` of `lhs.geq(rhs)`: the variables of the
/// problem stay as they are. It panics on a variable that the problem does
/// not have.
#[verifier::external_body]
fn require_at_least(
    m: &mut good_lp::solvers::microlp::MicroLpProblem,
    lhs: good_lp::Expression,
    rhs: good_lp::Expression,
)
    requires
        reaches_below(lhs, problem_vars(*old(m)).len()),
        reaches_below(rhs, problem_vars(*old(m)).len()),
    ensures
        problem_vars(*final(m)) == problem_vars(*old(m)),
{
    good_lp::SolverModel::add_constraint(m, lhs.geq(rhs));
}

/// `SolverModel::solve`: a solution, where there is one, has the variables
/// of the problem.
#[verifier::external_body]
fn solve_problem(m: good_lp::solvers::microlp::MicroLpProblem) -> (r: Result<
    good_lp::solvers::microlp::MicroLpSolution,
    good_lp::ResolutionError,
>)
    ensures
        r matches Ok(s) ==> solution_vars(s) == problem_vars(m),
{
    good_lp::SolverModel::solve(m)
}

/// `Solution::value`, as the bit pattern of the number returned. It panics on
/// a variable that the solution does not have, and may panic on an integer
/// variable.
#[verifier::external_body]
fn value_bits(s: &good_lp::solvers::microlp::MicroLpSolution, v: good_lp::Variable) -> (bits: u64)
    requires
        variable_index(v) < solution_vars(*s).len(),
        !solution_vars(*s)[variable_index(v) as int],
{
    good_lp::Solution::value(s, v).to_bits()
}

/// The variants of `ResolutionError`, one for one.
#[verifier::external_body]
fn failure_of(e: good_lp::ResolutionError) -> (failure: SolverFailure)
    ensures
        !(failure is Malformed),
{
    match e {
        good_lp::ResolutionError::Unbounded => SolverFailure::Unbounded,
        good_lp::ResolutionError::Infeasible => SolverFailure::Infeasible,
        good_lp::ResolutionError::Other(message) => SolverFailure::Other(message.to_string()),
        good_lp::ResolutionError::Str(message) => SolverFailure::Other(message),
    }
}

/// The handle at each position holds that position.
spec fn in_order(handles: Seq<good_lp::Variable>) -> bool {
    forall|i: int| 0 <= i < handles.len() ==> variable_index(#[trigger] handles[i]) == i
}

/// Whether each kind of variable takes integer values only.
spec fn integrality(kinds: Seq<VarKind>) -> Seq<bool> {
    kinds.map_values(|k: VarKind| k == VarKind::Binary)
}

/// Writes an expression of the library as one of `good_lp`, or tells that a
/// term of it names a variable without a handle or divides by zero.
fn lower(e: &Affine, handles: &Vec<good_lp::Variable>) -> (lowered: Option<good_lp::Expression>)
    requires
        in_order(handles@),
    ensures
        lowered is Some <==> scoped(e@, handles@.len() as int),
        lowered matches Some(x) ==> reaches_below(x, handles@.len()),
{
    let mut x = constant_expression(e.constant);
    let mut k: usize = 0;
    while k < e.terms.len()
        invariant
            k <= e.terms.len(),
            in_order(handles@),
            reaches_below(x, handles@.len()),
            forall|j: int| 0 <= j < k ==> usable(#[trigger] e@.terms[j], handles@.len() as int),
        decreases e.terms.len() - k,
    {
        let t: Term = e.terms[k];
        assert(e@.terms[k as int] == t@);
        if t.var >= handles.len() || t.divisor == 0 {
            return None;
        }
        add_term(&mut x, handles[t.var], t.factor, t.scale, t.divisor);
        k += 1;
    }
    Some(x)
}

/// Solves a program and returns the value of each variable as the bit pattern
/// of an IEEE-754 double.
///
/// The flags are not read from the solution: their entries are zero.
/// Whether a solution is found, and which, is the solver's doing; a program
/// that is not well formed is refused before the solver sees it, and only
/// such a program.
pub fn run(model: &Model) -> (outcome: Result<Vec<u64>, SolverFailure>)
    ensures
        outcome is Err && outcome->Err_0 is Malformed <==> !model@.well_formed(),
        outcome matches Ok(bits) ==> {
            &&& bits@.len() == model@.vars.len()
            &&& forall|i: int|
                0 <= i < bits@.len() && model@.vars[i] == VarKind::Binary ==> #[trigger] bits@[i]
                    == 0
        },
{
    let mut problem = new_problem();
    let mut handles: Vec<good_lp::Variable> = Vec::new();
    let mut i: usize = 0;
    while i < model.vars.len()
        invariant
            i <= model.vars.len(),
            handles@.len() == i,
            in_order(handles@),
            declared(problem) == integrality(model.vars@.take(i as int)),
        decreases model.vars.len() - i,
    {
        let handle = match model.vars[i] {
            VarKind::Fraction => add_continuous(&mut problem, 0, 1),
            VarKind::Binary => add_binary(&mut problem),
        };
        handles.push(handle);
        proof {
            assert(model.vars@.take(i + 1) =~= model.vars@.take(i as int).push(model.vars@[i as int]));
            assert(integrality(model.vars@.take(i + 1)) =~= integrality(
                model.vars@.take(i as int),
            ).push(model.vars@[i as int] == VarKind::Binary));
        }
        i += 1;
    }
    assert(model.vars@.take(i as int) =~= model.vars@);
    let objective = match lower(&model.objective, &handles) {
        Some(objective) => objective,
        None => {
            return Err(SolverFailure::Malformed);
        },
    };
    let mut lp = minimise(problem, objective);
    let mut j: usize = 0;
    while j < model.constraints.len()
        invariant
            j <= model.constraints.len(),
            handles@.len() == model.vars@.len(),
            in_order(handles@),
            problem_vars(lp) == integrality(model.vars@),
            scoped(model@.objective, model@.vars.len() as int),
            forall|r: int|
                0 <= r < j ==> {
                    &&& scoped((#[trigger] model@.constraints[r]).lhs, model@.vars.len() as int)
                    &&& scoped(model@.constraints[r].rhs, model@.vars.len() as int)
                },
        decreases model.constraints.len() - j,
    {
        let row = &model.constraints[j];
        assert(model@.constraints[j as int] == row@);
        let lhs = match lower(&row.lhs, &handles) {
            Some(lhs) => lhs,
            None => {
                return Err(SolverFailure::Malformed);
            },
        };
        let rhs = match lower(&row.rhs, &handles) {
            Some(rhs) => rhs,
            None => {
                return Err(SolverFailure::Malformed);
            },
        };
        match row.relation {
            Relation::Equal => require_equal(&mut lp, lhs, rhs),
            Relation::AtMost => require_at_most(&mut lp, lhs, rhs),
            Relation::AtLeast => require_at_least(&mut lp, lhs, rhs),
        }
        j += 1;
    }
    assert(model@.well_formed());
    match solve_problem(lp) {
        Err(e) => Err(failure_of(e)),
        Ok(solution) => {
            let mut bits: Vec<u64> = Vec::new();
            let mut k: usize = 0;
            while k < model.vars.len()
                invariant
                    k <= model.vars.len(),
                    bits@.len() == k,
                    handles@.len() == model.vars@.len(),
                    in_order(handles@),
                    solution_vars(solution) == integrality(model.vars@),
                    forall|i: int|
                        0 <= i < k && model.vars@[i] == VarKind::Binary ==> #[trigger] bits@[i] == 0,
                decreases model.vars.len() - k,
            {
                let value: u64 = match model.vars[k] {
                    VarKind::Fraction => value_bits(&solution, handles[k]),
                    VarKind::Binary => 0,
                };
                bits.push(value);
                k += 1;
            }
            Ok(bits)
        },
    }
}

} // verus!
