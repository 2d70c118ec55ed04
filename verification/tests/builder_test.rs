use optimization::builder::{build_model, level_of, BuildError};
use optimization::model::{Affine, Constraint, Model, Relation, Term, VarKind};
use optimization::{Consumer, Entity, Grid, Producer, Storage, EFFICIENCY_SCALE, MAX_HORIZON};

fn term(var: usize, factor: i32, scale: i32, divisor: i32) -> Term {
    Term { var, factor, scale, divisor }
}

fn sum(terms: Vec<Term>) -> Affine {
    Affine { terms, constant: 0 }
}

fn number(constant: i32) -> Affine {
    Affine { terms: vec![], constant }
}

fn row(lhs: Affine, relation: Relation, rhs: Affine) -> Constraint {
    Constraint { lhs, relation, rhs }
}

fn only(var: usize) -> Affine {
    sum(vec![term(var, 1, 1, 1)])
}

fn pinned(var: usize) -> Constraint {
    row(only(var), Relation::Equal, number(1))
}

fn covered(var: usize, flag: usize) -> Constraint {
    row(only(var), Relation::AtMost, only(flag))
}

fn excluded(var: usize, flag: usize) -> Constraint {
    row(only(var), Relation::AtMost, Affine { terms: vec![term(flag, 1, -1, 1)], constant: 1 })
}

fn storage(to_grid: bool, from_grid: bool) -> Storage {
    Storage::new(
        vec![11, 12],
        vec![9_000],
        vec![4, 5],
        vec![13],
        vec![8_000, 7_000],
        vec![6],
        50,
        10,
        to_grid,
        from_grid,
        "battery".to_string(),
    )
}

#[test]
fn a_horizon_without_timesteps_is_refused() {
    let entities =
        vec![Entity::Grid(Grid::new(vec![0], vec![1], vec![0], vec![1], "g".to_string()))];
    assert_eq!(build_model(&entities, 0), Err(BuildError::NoTimesteps));
    assert_eq!(build_model(&vec![], 0), Err(BuildError::NoTimesteps));
}

#[test]
fn the_first_invalid_entity_is_named() {
    let good = || Entity::Grid(Grid::new(vec![0], vec![1], vec![0], vec![1], "g".to_string()));
    let empty = Entity::Consumer(Consumer::new(vec![], vec![1], vec![1], "c".to_string()));
    let mut wasteful = Producer::new(vec![0], vec![1], vec![1], true, "p".to_string());
    wasteful.eff_prod = vec![EFFICIENCY_SCALE + 1];
    let entities = vec![good(), good(), Entity::Producer(wasteful), empty, good()];
    assert_eq!(build_model(&entities, 3), Err(BuildError::InvalidEntity(2)));
}

#[test]
fn no_timesteps_comes_before_an_invalid_entity() {
    let empty = Entity::Consumer(Consumer::new(vec![], vec![1], vec![1], "c".to_string()));
    assert_eq!(build_model(&vec![empty], 0), Err(BuildError::NoTimesteps));
}

#[test]
fn a_horizon_that_is_too_long_is_refused() {
    let entities =
        vec![Entity::Consumer(Consumer::new(vec![0], vec![1], vec![1], "c".to_string()))];
    assert_eq!(build_model(&entities, MAX_HORIZON + 1), Err(BuildError::TooLarge));
    assert_eq!(build_model(&entities, usize::MAX), Err(BuildError::TooLarge));
    assert_eq!(build_model(&vec![], MAX_HORIZON + 1), Err(BuildError::TooLarge));
}

#[test]
fn an_invalid_entity_comes_before_a_horizon_that_is_too_long() {
    let entities = vec![
        Entity::Consumer(Consumer::new(vec![0], vec![1], vec![1], "c".to_string())),
        Entity::Producer(Producer::new(vec![0], vec![1], vec![], true, "p".to_string())),
    ];
    assert_eq!(build_model(&entities, usize::MAX), Err(BuildError::InvalidEntity(1)));
}

#[test]
fn the_program_of_no_entities_balances_an_empty_node() {
    let model = build_model(&vec![], 2).unwrap();
    let closing = || {
        vec![
            row(sum(vec![]), Relation::Equal, number(0)),
            row(sum(vec![]), Relation::AtLeast, sum(vec![])),
            row(sum(vec![]), Relation::AtLeast, sum(vec![])),
        ]
    };
    let mut constraints = closing();
    constraints.extend(closing());
    assert_eq!(model, Model { vars: vec![], constraints, objective: sum(vec![]) });
}

#[test]
fn the_program_of_a_consumer() {
    let entities =
        vec![Entity::Consumer(Consumer::new(vec![3], vec![5_000], vec![7], "c".to_string()))];
    let model = build_model(&entities, 1).unwrap();
    let expected = Model {
        vars: vec![VarKind::Fraction],
        constraints: vec![
            pinned(0),
            row(sum(vec![term(0, 7, -10_000, 5_000)]), Relation::Equal, number(0)),
            row(sum(vec![]), Relation::AtLeast, sum(vec![])),
            row(sum(vec![term(0, 7, 10_000, 5_000)]), Relation::AtLeast, sum(vec![])),
        ],
        objective: sum(vec![term(0, 3, 7, 1)]),
    };
    assert_eq!(model, expected);
}

#[test]
fn the_program_of_a_producer_that_may_be_curtailed() {
    let entities = vec![Entity::Producer(Producer::new(
        vec![3],
        vec![5_000],
        vec![7],
        true,
        "p".to_string(),
    ))];
    let model = build_model(&entities, 1).unwrap();
    let expected = Model {
        vars: vec![VarKind::Fraction],
        constraints: vec![
            row(sum(vec![term(0, 7, 5_000, 10_000)]), Relation::Equal, number(0)),
            row(sum(vec![term(0, 7, 10_000, 5_000)]), Relation::AtLeast, sum(vec![])),
            row(sum(vec![]), Relation::AtLeast, sum(vec![])),
        ],
        objective: sum(vec![term(0, 3, 7, 1)]),
    };
    assert_eq!(model, expected);
}

#[test]
fn a_producer_that_may_not_be_curtailed_is_pinned() {
    let entities = vec![Entity::Producer(Producer::new(
        vec![3],
        vec![5_000],
        vec![7],
        false,
        "p".to_string(),
    ))];
    let model = build_model(&entities, 2).unwrap();
    assert_eq!(model.vars, vec![VarKind::Fraction, VarKind::Fraction]);
    assert_eq!(model.constraints.len(), 8);
    assert_eq!(model.constraints[0], pinned(0));
    assert_eq!(model.constraints[4], pinned(1));
}

#[test]
fn the_program_of_a_grid() {
    let entities =
        vec![Entity::Grid(Grid::new(vec![-1], vec![2], vec![3], vec![4], "g".to_string()))];
    let model = build_model(&entities, 1).unwrap();
    let expected = Model {
        vars: vec![VarKind::Fraction, VarKind::Fraction, VarKind::Binary],
        constraints: vec![
            covered(1, 2),
            excluded(0, 2),
            row(sum(vec![term(1, 4, 1, 1), term(0, 2, -1, 1)]), Relation::Equal, number(0)),
            row(sum(vec![]), Relation::AtLeast, sum(vec![])),
            row(sum(vec![]), Relation::AtLeast, sum(vec![])),
        ],
        objective: sum(vec![term(0, -1, 2, 1), term(1, 3, 4, 1)]),
    };
    assert_eq!(model, expected);
}

#[test]
fn the_state_of_charge_sums_every_timestep_so_far() {
    let s = storage(true, true);
    let level = level_of(&s, 2, 1, 4);
    let expected = Affine {
        terms: vec![
            term(1, 4, 9_000, 10_000),
            term(2, 6, -1, 1),
            term(5, 5, 9_000, 10_000),
            term(6, 6, -1, 1),
            term(9, 4, 9_000, 10_000),
            term(10, 6, -1, 1),
        ],
        constant: 10,
    };
    assert_eq!(level, expected);
}

#[test]
fn the_program_of_a_storage_that_is_not_coupled() {
    let entities = vec![Entity::Storage(storage(true, true))];
    let model = build_model(&entities, 2).unwrap();
    let level = |t: usize| level_of(&storage(true, true), t, 0, 3);
    let expected = Model {
        vars: vec![
            VarKind::Fraction,
            VarKind::Fraction,
            VarKind::Binary,
            VarKind::Fraction,
            VarKind::Fraction,
            VarKind::Binary,
        ],
        constraints: vec![
            covered(1, 2),
            excluded(0, 2),
            row(level(0), Relation::AtLeast, number(0)),
            row(level(0), Relation::AtMost, number(50)),
            row(
                sum(vec![term(1, 6, 8_000, 10_000), term(0, 4, -10_000, 9_000)]),
                Relation::Equal,
                number(0),
            ),
            row(sum(vec![term(1, 6, 10_000, 8_000)]), Relation::AtLeast, sum(vec![])),
            row(sum(vec![term(0, 4, 10_000, 9_000)]), Relation::AtLeast, sum(vec![])),
            covered(4, 5),
            excluded(3, 5),
            row(level(1), Relation::AtLeast, number(0)),
            row(level(1), Relation::AtMost, number(50)),
            row(
                sum(vec![term(4, 6, 7_000, 10_000), term(3, 5, -10_000, 9_000)]),
                Relation::Equal,
                number(0),
            ),
            row(sum(vec![term(4, 6, 10_000, 7_000)]), Relation::AtLeast, sum(vec![])),
            row(sum(vec![term(3, 5, 10_000, 9_000)]), Relation::AtLeast, sum(vec![])),
        ],
        objective: sum(vec![
            term(0, 11, 4, 1),
            term(1, 13, 6, 1),
            term(3, 12, 5, 1),
            term(4, 13, 6, 1),
        ]),
    };
    assert_eq!(model, expected);
}

#[test]
fn a_coupled_storage_stands_on_the_right_of_the_couplings() {
    let entities = vec![Entity::Storage(storage(false, false))];
    let model = build_model(&entities, 1).unwrap();
    assert_eq!(
        model.constraints[5],
        row(
            sum(vec![term(1, 6, 10_000, 8_000)]),
            Relation::AtLeast,
            sum(vec![term(0, 4, 10_000, 9_000)]),
        )
    );
    assert_eq!(
        model.constraints[6],
        row(
            sum(vec![term(0, 4, 10_000, 9_000)]),
            Relation::AtLeast,
            sum(vec![term(1, 6, 10_000, 8_000)]),
        )
    );
    let entities = vec![Entity::Storage(storage(false, true))];
    let model = build_model(&entities, 1).unwrap();
    assert_eq!(model.constraints[5].rhs, sum(vec![]));
    assert_eq!(model.constraints[6].rhs, sum(vec![term(1, 6, 10_000, 8_000)]));
    let entities = vec![Entity::Storage(storage(true, false))];
    let model = build_model(&entities, 1).unwrap();
    assert_eq!(model.constraints[5].rhs, sum(vec![term(0, 4, 10_000, 9_000)]));
    assert_eq!(model.constraints[6].rhs, sum(vec![]));
}

#[test]
fn the_final_state_of_charge_is_pinned_in_the_last_timestep_only() {
    let entities = vec![Entity::Storage(storage(true, true).with_end_capacity(30))];
    let model = build_model(&entities, 3).unwrap();
    // Seven constraints in each of the first two timesteps, eight in the last.
    assert_eq!(model.constraints.len(), 22);
    let level = level_of(&storage(true, true), 2, 0, 3);
    assert_eq!(model.constraints[14], covered(7, 8));
    assert_eq!(model.constraints[15], excluded(6, 8));
    assert_eq!(model.constraints[16], row(level, Relation::Equal, number(30)));
    assert_eq!(model.constraints[17].relation, Relation::AtLeast);
    assert_eq!(model.constraints[18].relation, Relation::AtMost);
    assert_eq!(model.constraints[2].relation, Relation::AtLeast);
    assert_eq!(model.constraints[9].relation, Relation::AtLeast);
}

#[test]
fn variables_follow_the_timesteps_and_the_list() {
    let entities = vec![
        Entity::Consumer(Consumer::new(vec![1], vec![EFFICIENCY_SCALE], vec![2, 3], "c".to_string())),
        Entity::Grid(Grid::new(vec![4], vec![5], vec![6], vec![7], "g".to_string())),
        Entity::Producer(Producer::new(vec![8], vec![9_000], vec![9], true, "p".to_string())),
    ];
    let model = build_model(&entities, 3).unwrap();
    let block = [VarKind::Fraction, VarKind::Fraction, VarKind::Fraction, VarKind::Binary, VarKind::Fraction];
    assert_eq!(model.vars, [block, block, block].concat());
    // The objective names the variables in the order in which they stand, with
    // the profiles read at the timestep of the block.
    assert_eq!(
        model.objective,
        sum(vec![
            term(0, 1, 2, 1),
            term(1, 4, 5, 1),
            term(2, 6, 7, 1),
            term(4, 8, 9, 1),
            term(5, 1, 3, 1),
            term(6, 4, 5, 1),
            term(7, 6, 7, 1),
            term(9, 8, 9, 1),
            term(10, 1, 2, 1),
            term(11, 4, 5, 1),
            term(12, 6, 7, 1),
            term(14, 8, 9, 1),
        ])
    );
    // The balance of the second timestep.
    assert_eq!(
        model.constraints[9],
        row(
            sum(vec![
                term(5, 3, -10_000, 10_000),
                term(7, 7, 1, 1),
                term(6, 5, -1, 1),
                term(9, 9, 9_000, 10_000),
            ]),
            Relation::Equal,
            number(0),
        )
    );
}
