use optimization::backend::{run, SolverFailure};
use optimization::model::{Affine, Constraint, Model, Relation, Term, VarKind};

fn unit(var: usize) -> Term {
    Term { var, factor: 1, scale: 1, divisor: 1 }
}

fn sum(terms: Vec<Term>, constant: i32) -> Affine {
    Affine { terms, constant }
}

fn row(lhs: Affine, relation: Relation, rhs: Affine) -> Constraint {
    Constraint { lhs, relation, rhs }
}

/// Two sides that exclude each other, a balance between them, and a reward
/// for the first: the flag forces both to zero.
#[test]
fn run_solves_a_small_mixed_integer_program() {
    let mut model = Model::new();
    model.declare(VarKind::Fraction);
    model.declare(VarKind::Fraction);
    model.declare(VarKind::Binary);
    model.declare(VarKind::Fraction);
    model.constrain(row(sum(vec![unit(1)], 0), Relation::AtMost, sum(vec![unit(2)], 0)));
    model.constrain(row(
        sum(vec![unit(0)], 0),
        Relation::AtMost,
        sum(vec![Term { var: 2, factor: 1, scale: -1, divisor: 1 }], 1),
    ));
    model.constrain(row(
        sum(vec![unit(1), Term { var: 0, factor: 1, scale: -1, divisor: 1 }, unit(3)], 0),
        Relation::Equal,
        sum(vec![], 0),
    ));
    model.constrain(row(
        sum(vec![Term { var: 3, factor: 1, scale: 10_000, divisor: 5_000 }], 0),
        Relation::Equal,
        sum(vec![], 1),
    ));
    model.charge(Term { var: 0, factor: -1, scale: 1, divisor: 1 });
    let bits = run(&model).expect("the program has a solution");
    let values: Vec<f64> = bits.iter().map(|b| f64::from_bits(*b)).collect();
    println!("{:?}", values);
    assert_eq!(values.len(), 4);
    assert!((values[0] - 0.5).abs() < 1e-6);
    assert!((values[1] - 0.0).abs() < 1e-6);
    assert_eq!(bits[2], 0);
    assert!((values[3] - 0.5).abs() < 1e-6);
}

#[test]
fn run_refuses_a_term_without_variable() {
    let mut model = Model::new();
    model.declare(VarKind::Fraction);
    model.charge(unit(1));
    assert!(matches!(run(&model), Err(SolverFailure::Malformed)));
}

#[test]
fn run_reports_infeasibility() {
    let mut model = Model::new();
    model.declare(VarKind::Fraction);
    model.constrain(row(sum(vec![unit(0)], 0), Relation::AtLeast, sum(vec![], 2)));
    assert!(matches!(run(&model), Err(SolverFailure::Infeasible)));
}

#[test]
fn run_refuses_a_term_that_divides_by_zero() {
    let mut model = Model::new();
    model.declare(VarKind::Fraction);
    model.constrain(row(
        sum(vec![unit(0)], 0),
        Relation::AtMost,
        sum(vec![Term { var: 0, factor: 1, scale: 1, divisor: 0 }], 0),
    ));
    assert!(matches!(run(&model), Err(SolverFailure::Malformed)));
}

#[test]
fn run_of_a_program_without_variables_succeeds() {
    assert_eq!(run(&Model::new()), Ok(vec![]));
}
